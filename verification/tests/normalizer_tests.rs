use ason::lexer::Lexer;
use ason::location::Location;
use ason::normalizer::{ClearTokenIter, NormalizedTokenIter, TrimmedTokenIter};
use ason::peekableiter::{PeekableIter, TokenIter};
use ason::token::{FloatLiteral, FloatMagnitude, NumberToken, Token, TokenWithRange};
use ason::AsonError;

fn lex_from_str(s: &str) -> Result<Vec<TokenWithRange>, AsonError> {
    let chars: Vec<char> = s.chars().collect();
    let mut lexer = Lexer::new(chars);
    let peekable_lexer = PeekableIter::new(&mut lexer);
    let mut clear_iter = ClearTokenIter::new(peekable_lexer);
    let peekable_clear_iter = PeekableIter::new(&mut clear_iter);
    let mut normalized_iter = NormalizedTokenIter::new(peekable_clear_iter);
    let peekable_normalized_iter = PeekableIter::new(&mut normalized_iter);
    let mut trimmed_iter = TrimmedTokenIter::new(peekable_normalized_iter);

    let mut token_with_ranges = vec![];
    while let Some(result) = trimmed_iter.next() {
        match result {
            Ok(twr) => token_with_ranges.push(twr),
            Err(e) => return Err(e),
        }
    }

    Ok(token_with_ranges)
}

fn lex_from_str_without_location(s: &str) -> Result<Vec<Token>, AsonError> {
    let tokens = lex_from_str(s)?
        .into_iter()
        .map(|e| e.token)
        .collect::<Vec<Token>>();
    Ok(tokens)
}

#[test]
fn test_normalize_clean_comments() {
    assert_eq!(
        lex_from_str_without_location(
            r#"11 // line comment 1
            // line comment 2
            13 /* block comment 1 */
            /*
            block comment 2
            */
            17
            "#
        )
        .unwrap(),
        vec![
            Token::Number(NumberToken::I32(11)),
            Token::NewLine,
            Token::Number(NumberToken::I32(13)),
            Token::NewLine,
            Token::Number(NumberToken::I32(17)),
        ]
    );

    assert_eq!(
        lex_from_str(r#"11 /* foo */ 13"#).unwrap(),
        vec![
            TokenWithRange::from_position_and_length(
                Token::Number(NumberToken::I32(11)),
                &Location::new_position(/*0,*/ 0, 0, 0),
                2
            ),
            TokenWithRange::from_position_and_length(
                Token::Number(NumberToken::I32(13)),
                &Location::new_position(/*0,*/ 13, 0, 13),
                2
            ),
        ]
    );
}

#[test]
fn test_normalize_blanks_commas_and_comments() {
    assert_eq!(
        // test items:
        //
        // unchaged:
        // - comma => comma
        //
        // normalized:
        // - comma + blank(s) => comma
        // - blank(s) + comma => comma
        // - blank(s) + comma + blank(s) => comma
        //
        // inferred:
        // - comma + comment(s) + comma => comma + comma
        // - blank(s) + comment(s) + blank(s) => blank
        //
        // normalization:
        // - blanks => blank
        lex_from_str_without_location(
            r#"
                [1,2,

                3

                ,4

                ,

                5
                ,
                // comment between commas
                ,
                6

                // comment between blank lines

                7
                8
                ]

                "#
        )
        .unwrap(),
        vec![
            Token::LeftBracket,
            Token::Number(NumberToken::I32(1)),
            Token::Comma,
            Token::Number(NumberToken::I32(2)),
            Token::Comma,
            Token::Number(NumberToken::I32(3)),
            Token::Comma,
            Token::Number(NumberToken::I32(4)),
            Token::Comma,
            Token::Number(NumberToken::I32(5)),
            Token::Comma,
            Token::Comma,
            Token::Number(NumberToken::I32(6)),
            Token::NewLine,
            Token::Number(NumberToken::I32(7)),
            Token::NewLine,
            Token::Number(NumberToken::I32(8)),
            Token::NewLine,
            Token::RightBracket,
        ]
    );

    // location

    // blanks -> blank
    assert_eq!(
        lex_from_str("11\n \n  \n13").unwrap(),
        vec![
            TokenWithRange::from_position_and_length(
                Token::Number(NumberToken::I32(11)),
                &Location::new_position(/*0,*/ 0, 0, 0),
                2
            ),
            TokenWithRange::from_position_and_length(
                Token::NewLine,
                &Location::new_position(/*0,*/ 2, 0, 2),
                6
            ),
            TokenWithRange::from_position_and_length(
                Token::Number(NumberToken::I32(13)),
                &Location::new_position(/*0,*/ 8, 3, 0),
                2
            ),
        ]
    );

    // comma + blanks -> comma
    assert_eq!(
        lex_from_str(",\n\n\n11").unwrap(),
        vec![
            TokenWithRange::from_position_and_length(
                Token::Comma,
                &Location::new_position(/*0,*/ 0, 0, 0),
                1
            ),
            TokenWithRange::from_position_and_length(
                Token::Number(NumberToken::I32(11)),
                &Location::new_position(/*0,*/ 4, 3, 0),
                2
            ),
        ]
    );

    // blanks + comma -> comma
    assert_eq!(
        lex_from_str("11\n\n\n,").unwrap(),
        vec![
            TokenWithRange::from_position_and_length(
                Token::Number(NumberToken::I32(11)),
                &Location::new_position(/*0,*/ 0, 0, 0),
                2
            ),
            TokenWithRange::from_position_and_length(
                Token::Comma,
                &Location::new_position(/*0,*/ 5, 3, 0),
                1
            ),
        ]
    );

    // blanks + comma + blanks -> comma
    assert_eq!(
        lex_from_str("11\n\n,\n\n13").unwrap(),
        vec![
            TokenWithRange::from_position_and_length(
                Token::Number(NumberToken::I32(11)),
                &Location::new_position(/*0,*/ 0, 0, 0),
                2
            ),
            TokenWithRange::from_position_and_length(
                Token::Comma,
                &Location::new_position(/*0,*/ 4, 2, 0),
                1
            ),
            TokenWithRange::from_position_and_length(
                Token::Number(NumberToken::I32(13)),
                &Location::new_position(/*0,*/ 7, 4, 0),
                2
            ),
        ]
    );

    // comma + comment + comma -> comma + comma
    assert_eq!(
        lex_from_str(",//abc\n,").unwrap(),
        vec![
            TokenWithRange::from_position_and_length(
                Token::Comma,
                &Location::new_position(/*0,*/ 0, 0, 0),
                1
            ),
            TokenWithRange::from_position_and_length(
                Token::Comma,
                &Location::new_position(/*0,*/ 7, 1, 0),
                1
            ),
        ]
    );

    // blanks + comment + blanks -> blank
    assert_eq!(
        lex_from_str("11\n\n//abc\n\n13").unwrap(),
        vec![
            TokenWithRange::from_position_and_length(
                Token::Number(NumberToken::I32(11)),
                &Location::new_position(/*0,*/ 0, 0, 0),
                2
            ),
            TokenWithRange::from_position_and_length(
                Token::NewLine,
                &Location::new_position(/*0,*/ 2, 0, 2),
                9
            ),
            TokenWithRange::from_position_and_length(
                Token::Number(NumberToken::I32(13)),
                &Location::new_position(/*0,*/ 11, 4, 0),
                2
            ),
        ]
    );
}

#[test]
fn test_normalize_trim_blanks() {
    assert_eq!(
        lex_from_str_without_location(
            r#"

            11

            13

            "#
        )
        .unwrap(),
        vec![
            Token::Number(NumberToken::I32(11)),
            Token::NewLine,
            Token::Number(NumberToken::I32(13)),
        ]
    );
}

#[test]
fn test_normalize_plus_and_minus_decimal_numbers() {
    // implicit type, default int
    {
        assert_eq!(
            lex_from_str_without_location("+11").unwrap(),
            vec![Token::Number(NumberToken::I32(11))]
        );

        assert_eq!(
            lex_from_str_without_location("-13").unwrap(),
            vec![Token::Number(NumberToken::I32(-13_i32 as u32))]
        );

        // err: positive overflow
        assert!(matches!(
            lex_from_str_without_location("+2_147_483_648"),
            Err(AsonError::MessageWithLocation(
                _,
                Location {
                    // unit: 0,
                    index: 0,
                    line: 0,
                    column: 0,
                    length: 14
                }
            ))
        ));

        // err: negative overflow
        assert!(matches!(
            lex_from_str_without_location("-2_147_483_649"),
            Err(AsonError::MessageWithLocation(
                _,
                Location {
                    // unit: 0,
                    index: 0,
                    line: 0,
                    column: 0,
                    length: 14
                }
            ))
        ));
    }

    // byte
    {
        assert_eq!(
            lex_from_str_without_location("+127_i8").unwrap(),
            vec![Token::Number(NumberToken::I8(127))]
        );

        assert_eq!(
            lex_from_str_without_location("-128_i8").unwrap(),
            vec![Token::Number(NumberToken::I8(-128_i8 as u8))]
        );

        // err: positive overflow
        assert!(matches!(
            lex_from_str_without_location("+128_i8"),
            Err(AsonError::MessageWithLocation(
                _,
                Location {
                    // unit: 0,
                    index: 0,
                    line: 0,
                    column: 0,
                    length: 7
                }
            ))
        ));

        // err: negative overflow
        assert!(matches!(
            lex_from_str_without_location("-129_i8"),
            Err(AsonError::MessageWithLocation(
                _,
                Location {
                    // unit: 0,
                    index: 0,
                    line: 0,
                    column: 0,
                    length: 7
                }
            ))
        ));

        // err: unsigned number with minus sign
        assert!(matches!(
            lex_from_str_without_location("-1_u8"),
            Err(AsonError::MessageWithLocation(
                _,
                Location {
                    // unit: 0,
                    index: 0,
                    line: 0,
                    column: 0,
                    length: 5
                }
            ))
        ));
    }

    // short
    {
        assert_eq!(
            lex_from_str_without_location("+32767_i16").unwrap(),
            vec![Token::Number(NumberToken::I16(32767))]
        );

        assert_eq!(
            lex_from_str_without_location("-32768_i16").unwrap(),
            vec![Token::Number(NumberToken::I16(-32768_i16 as u16))]
        );

        // err: positive overflow
        assert!(matches!(
            lex_from_str_without_location("+32768_i16"),
            Err(AsonError::MessageWithLocation(
                _,
                Location {
                    // unit: 0,
                    index: 0,
                    line: 0,
                    column: 0,
                    length: 10
                }
            ))
        ));

        // err: negative overflow
        assert!(matches!(
            lex_from_str_without_location("-32769_i16"),
            Err(AsonError::MessageWithLocation(
                _,
                Location {
                    // unit: 0,
                    index: 0,
                    line: 0,
                    column: 0,
                    length: 10
                }
            ))
        ));

        // err: unsigned number with minus sign
        assert!(matches!(
            lex_from_str_without_location("-1_u16"),
            Err(AsonError::MessageWithLocation(
                _,
                Location {
                    // unit: 0,
                    index: 0,
                    line: 0,
                    column: 0,
                    length: 6
                }
            ))
        ));
    }

    // int
    {
        assert_eq!(
            lex_from_str_without_location("+2_147_483_647_i32").unwrap(),
            vec![Token::Number(NumberToken::I32(2_147_483_647i32 as u32))]
        );

        assert_eq!(
            lex_from_str_without_location("-2_147_483_648_i32").unwrap(),
            vec![Token::Number(NumberToken::I32(-2_147_483_648i32 as u32))]
        );

        // err: positive overflow
        assert!(matches!(
            lex_from_str_without_location("+2_147_483_648_i32"),
            Err(AsonError::MessageWithLocation(
                _,
                Location {
                    // unit: 0,
                    index: 0,
                    line: 0,
                    column: 0,
                    length: 18
                }
            ))
        ));

        // err: negative overflow
        assert!(matches!(
            lex_from_str_without_location("-2_147_483_649_i32"),
            Err(AsonError::MessageWithLocation(
                _,
                Location {
                    // unit: 0,
                    index: 0,
                    line: 0,
                    column: 0,
                    length: 18
                }
            ))
        ));

        // err: unsigned number with minus sign
        assert!(matches!(
            lex_from_str_without_location("-1_u32"),
            Err(AsonError::MessageWithLocation(
                _,
                Location {
                    // unit: 0,
                    index: 0,
                    line: 0,
                    column: 0,
                    length: 6
                }
            ))
        ));
    }

    // long
    {
        assert_eq!(
            lex_from_str_without_location("+9_223_372_036_854_775_807_i64").unwrap(),
            vec![Token::Number(NumberToken::I64(
                9_223_372_036_854_775_807i64 as u64
            )),]
        );

        assert_eq!(
            lex_from_str_without_location("-9_223_372_036_854_775_808_i64").unwrap(),
            vec![Token::Number(NumberToken::I64(
                -9_223_372_036_854_775_808i64 as u64
            )),]
        );

        // err: positive overflow
        assert!(matches!(
            lex_from_str_without_location("+9_223_372_036_854_775_808_i64"),
            Err(AsonError::MessageWithLocation(
                _,
                Location {
                    // unit: 0,
                    index: 0,
                    line: 0,
                    column: 0,
                    length: 30
                }
            ))
        ));

        // err: negative overflow
        assert!(matches!(
            lex_from_str_without_location("-9_223_372_036_854_775_809_i64"),
            Err(AsonError::MessageWithLocation(
                _,
                Location {
                    // unit: 0,
                    index: 0,
                    line: 0,
                    column: 0,
                    length: 30
                }
            ))
        ));

        // err: unsigned number with minus sign
        assert!(matches!(
            lex_from_str_without_location("-1_u64"),
            Err(AsonError::MessageWithLocation(
                _,
                Location {
                    // unit: 0,
                    index: 0,
                    line: 0,
                    column: 0,
                    length: 6
                }
            ))
        ));
    }

    // location

    {
        assert_eq!(
            lex_from_str("+11").unwrap(),
            vec![TokenWithRange::from_position_and_length(
                Token::Number(NumberToken::I32(11)),
                &Location::new_position(/*0,*/ 0, 0, 0),
                3
            ),]
        );

        assert_eq!(
            lex_from_str("-13").unwrap(),
            vec![TokenWithRange::from_position_and_length(
                Token::Number(NumberToken::I32(-13_i32 as u32)),
                &Location::new_position(/*0,*/ 0, 0, 0),
                3
            ),]
        );

        assert_eq!(
            lex_from_str("+11,-13").unwrap(),
            vec![
                TokenWithRange::from_position_and_length(
                    Token::Number(NumberToken::I32(11)),
                    &Location::new_position(/*0,*/ 0, 0, 0),
                    3
                ),
                TokenWithRange::from_position_and_length(
                    Token::Comma,
                    &Location::new_position(/*0,*/ 3, 0, 3),
                    1
                ),
                TokenWithRange::from_position_and_length(
                    Token::Number(NumberToken::I32(-13_i32 as u32)),
                    &Location::new_position(/*0,*/ 4, 0, 4),
                    3
                ),
            ]
        );
    }

    // +EOF
    assert!(matches!(
        lex_from_str_without_location("abc,+"),
        Err(AsonError::UnexpectedEndOfDocument(_,))
    ));

    // -EOF
    assert!(matches!(
        lex_from_str_without_location("xyz,-"),
        Err(AsonError::UnexpectedEndOfDocument(_,))
    ));

    // err: plus sign is added to non-numbers
    assert!(matches!(
        lex_from_str_without_location("+true"),
        Err(AsonError::MessageWithLocation(
            _,
            Location {
                // unit: 0,
                index: 0,
                line: 0,
                column: 0,
                length: 5
            }
        ))
    ));

    // err: minus sign is added to non-numbers
    assert!(matches!(
        lex_from_str_without_location("-true"),
        Err(AsonError::MessageWithLocation(
            _,
            Location {
                // unit: 0,
                index: 0,
                line: 0,
                column: 0,
                length: 5
            }
        ))
    ));
}

#[test]
fn test_normalize_signed_integer_overflow_decimal() {
    assert!(matches!(
        lex_from_str_without_location("2_147_483_648"),
        Err(AsonError::MessageWithLocation(
            _,
            Location {
                // unit: 0,
                index: 0,
                line: 0,
                column: 0,
                length: 13
            }
        ))
    ));

    assert!(matches!(
        lex_from_str_without_location("128_i8"),
        Err(AsonError::MessageWithLocation(
            _,
            Location {
                // unit: 0,
                index: 0,
                line: 0,
                column: 0,
                length: 6
            }
        ))
    ));

    assert!(matches!(
        lex_from_str_without_location("32768_i16"),
        Err(AsonError::MessageWithLocation(
            _,
            Location {
                // unit: 0,
                index: 0,
                line: 0,
                column: 0,
                length: 9
            }
        ))
    ));

    assert!(matches!(
        lex_from_str_without_location("2_147_483_648_i32"),
        Err(AsonError::MessageWithLocation(
            _,
            Location {
                // unit: 0,
                index: 0,
                line: 0,
                column: 0,
                length: 17
            }
        ))
    ));

    assert!(matches!(
        lex_from_str_without_location("9_223_372_036_854_775_808_i64"),
        Err(AsonError::MessageWithLocation(
            _,
            Location {
                // unit: 0,
                index: 0,
                line: 0,
                column: 0,
                length: 29
            }
        ))
    ));
}

#[test]
fn test_normalize_plus_and_minus_hex_numbers() {
    // implicit type, default int
    {
        assert_eq!(
            lex_from_str_without_location("+0x11").unwrap(),
            vec![Token::Number(NumberToken::I32(0x11))]
        );

        assert_eq!(
            lex_from_str_without_location("-0x13").unwrap(),
            vec![Token::Number(NumberToken::I32(-0x13_i32 as u32))]
        );

        // err: positive overflow
        assert!(matches!(
            lex_from_str_without_location("+0x8000_0000"),
            Err(AsonError::MessageWithLocation(
                _,
                Location {
                    // unit: 0,
                    index: 0,
                    line: 0,
                    column: 0,
                    length: 12
                }
            ))
        ));

        // err: negative overflow
        assert!(matches!(
            lex_from_str_without_location("-0x8000_0001"),
            Err(AsonError::MessageWithLocation(
                _,
                Location {
                    // unit: 0,
                    index: 0,
                    line: 0,
                    column: 0,
                    length: 12
                }
            ))
        ));
    }

    // byte
    {
        assert_eq!(
            lex_from_str_without_location("+0x7f_i8").unwrap(),
            vec![Token::Number(NumberToken::I8(0x7f_i8 as u8))]
        );

        assert_eq!(
            lex_from_str_without_location("-0x80_i8").unwrap(),
            vec![Token::Number(NumberToken::I8(-0x80_i8 as u8))]
        );

        // err: positive overflow
        assert!(matches!(
            lex_from_str_without_location("+0x80_i8"),
            Err(AsonError::MessageWithLocation(
                _,
                Location {
                    // unit: 0,
                    index: 0,
                    line: 0,
                    column: 0,
                    length: 8
                }
            ))
        ));

        // err: negative overflow
        assert!(matches!(
            lex_from_str_without_location("-0x81_i8"),
            Err(AsonError::MessageWithLocation(
                _,
                Location {
                    // unit: 0,
                    index: 0,
                    line: 0,
                    column: 0,
                    length: 8
                }
            ))
        ));

        // err: unsigned number with minus sign
        assert!(matches!(
            lex_from_str_without_location("-0x1_u8"),
            Err(AsonError::MessageWithLocation(
                _,
                Location {
                    // unit: 0,
                    index: 0,
                    line: 0,
                    column: 0,
                    length: 7
                }
            ))
        ));
    }

    // short
    {
        assert_eq!(
            lex_from_str_without_location("+0x7fff_i16").unwrap(),
            vec![Token::Number(NumberToken::I16(0x7fff_i16 as u16))]
        );

        assert_eq!(
            lex_from_str_without_location("-0x8000_i16").unwrap(),
            vec![Token::Number(NumberToken::I16(-0x8000_i16 as u16))]
        );

        // err: positive overflow
        assert!(matches!(
            lex_from_str_without_location("+0x8000_i16"),
            Err(AsonError::MessageWithLocation(
                _,
                Location {
                    // unit: 0,
                    index: 0,
                    line: 0,
                    column: 0,
                    length: 11
                }
            ))
        ));

        // err: negative overflow
        assert!(matches!(
            lex_from_str_without_location("-0x8001_i16"),
            Err(AsonError::MessageWithLocation(
                _,
                Location {
                    // unit: 0,
                    index: 0,
                    line: 0,
                    column: 0,
                    length: 11
                }
            ))
        ));

        // err: unsigned number with minus sign
        assert!(matches!(
            lex_from_str_without_location("-0x1_u16"),
            Err(AsonError::MessageWithLocation(
                _,
                Location {
                    // unit: 0,
                    index: 0,
                    line: 0,
                    column: 0,
                    length: 8
                }
            ))
        ));
    }

    // int
    {
        assert_eq!(
            lex_from_str_without_location("+0x7fff_ffff_i32").unwrap(),
            vec![Token::Number(NumberToken::I32(0x7fff_ffff_i32 as u32))]
        );

        assert_eq!(
            lex_from_str_without_location("-0x8000_0000_i32").unwrap(),
            vec![Token::Number(NumberToken::I32(-0x8000_0000_i32 as u32))]
        );

        // err: positive overflow
        assert!(matches!(
            lex_from_str_without_location("+0x8000_0000_i32"),
            Err(AsonError::MessageWithLocation(
                _,
                Location {
                    // unit: 0,
                    index: 0,
                    line: 0,
                    column: 0,
                    length: 16
                }
            ))
        ));

        // err: negative overflow
        assert!(matches!(
            lex_from_str_without_location("-0x8000_0001_i32"),
            Err(AsonError::MessageWithLocation(
                _,
                Location {
                    // unit: 0,
                    index: 0,
                    line: 0,
                    column: 0,
                    length: 16
                }
            ))
        ));

        // err: unsigned number with minus sign
        assert!(matches!(
            lex_from_str_without_location("-0x1_u32"),
            Err(AsonError::MessageWithLocation(
                _,
                Location {
                    // unit: 0,
                    index: 0,
                    line: 0,
                    column: 0,
                    length: 8
                }
            ))
        ));
    }

    // long
    {
        assert_eq!(
            lex_from_str_without_location("+0x7fff_ffff_ffff_ffff_i64").unwrap(),
            vec![Token::Number(NumberToken::I64(
                0x7fff_ffff_ffff_ffff_i64 as u64
            ))]
        );

        assert_eq!(
            lex_from_str_without_location("-0x8000_0000_0000_0000_i64").unwrap(),
            vec![Token::Number(NumberToken::I64(
                -0x8000_0000_0000_0000_i64 as u64
            ))]
        );

        // err: positive overflow
        assert!(matches!(
            lex_from_str_without_location("+0x8000_0000_0000_0000_i64"),
            Err(AsonError::MessageWithLocation(
                _,
                Location {
                    // unit: 0,
                    index: 0,
                    line: 0,
                    column: 0,
                    length: 26
                }
            ))
        ));

        // err: negative overflow
        assert!(matches!(
            lex_from_str_without_location("-0x8000_0000_0000_0001_i64"),
            Err(AsonError::MessageWithLocation(
                _,
                Location {
                    // unit: 0,
                    index: 0,
                    line: 0,
                    column: 0,
                    length: 26
                }
            ))
        ));

        // err: unsigned number with minus sign
        assert!(matches!(
            lex_from_str_without_location("-0x1_u64"),
            Err(AsonError::MessageWithLocation(
                _,
                Location {
                    // unit: 0,
                    index: 0,
                    line: 0,
                    column: 0,
                    length: 8
                }
            ))
        ));
    }

    // location

    {
        assert_eq!(
            lex_from_str("+0x11").unwrap(),
            vec![TokenWithRange::from_position_and_length(
                Token::Number(NumberToken::I32(0x11)),
                &Location::new_position(/*0,*/ 0, 0, 0),
                5
            ),]
        );

        assert_eq!(
            lex_from_str("-0x13").unwrap(),
            vec![TokenWithRange::from_position_and_length(
                Token::Number(NumberToken::I32(-0x13_i32 as u32)),
                &Location::new_position(/*0,*/ 0, 0, 0),
                5
            ),]
        );

        assert_eq!(
            lex_from_str("+0x11,-0x13").unwrap(),
            vec![
                TokenWithRange::from_position_and_length(
                    Token::Number(NumberToken::I32(0x11)),
                    &Location::new_position(/*0,*/ 0, 0, 0),
                    5
                ),
                TokenWithRange::from_position_and_length(
                    Token::Comma,
                    &Location::new_position(/*0,*/ 5, 0, 5),
                    1
                ),
                TokenWithRange::from_position_and_length(
                    Token::Number(NumberToken::I32(-0x13_i32 as u32)),
                    &Location::new_position(/*0,*/ 6, 0, 6),
                    5
                ),
            ]
        );
    }
}

#[test]
fn test_normalize_signed_integer_overflow_hex() {
    assert!(matches!(
        lex_from_str_without_location("0x8000_0000"),
        Err(AsonError::MessageWithLocation(
            _,
            Location {
                // unit: 0,
                index: 0,
                line: 0,
                column: 0,
                length: 11
            }
        ))
    ));

    assert!(matches!(
        lex_from_str_without_location("0x80_i8"),
        Err(AsonError::MessageWithLocation(
            _,
            Location {
                // unit: 0,
                index: 0,
                line: 0,
                column: 0,
                length: 7
            }
        ))
    ));

    assert!(matches!(
        lex_from_str_without_location("0x8000_i16"),
        Err(AsonError::MessageWithLocation(
            _,
            Location {
                // unit: 0,
                index: 0,
                line: 0,
                column: 0,
                length: 10
            }
        ))
    ));

    assert!(matches!(
        lex_from_str_without_location("0x8000_0000_i32"),
        Err(AsonError::MessageWithLocation(
            _,
            Location {
                // unit: 0,
                index: 0,
                line: 0,
                column: 0,
                length: 15
            }
        ))
    ));

    assert!(matches!(
        lex_from_str_without_location("0x8000_0000_0000_0000_i64"),
        Err(AsonError::MessageWithLocation(
            _,
            Location {
                // unit: 0,
                index: 0,
                line: 0,
                column: 0,
                length: 25
            }
        ))
    ));
}

#[test]
fn test_normalize_plus_and_minus_binary_numbers() {
    // implicit type, default int
    {
        assert_eq!(
            lex_from_str_without_location("+0b101").unwrap(),
            vec![Token::Number(NumberToken::I32(0b101_i32 as u32))]
        );

        assert_eq!(
            lex_from_str_without_location("-0b010").unwrap(),
            vec![Token::Number(NumberToken::I32(-0b010_i32 as u32))]
        );

        // err: positive overflow
        assert!(matches!(
            lex_from_str_without_location("+0b1000_0000_0000_0000__0000_0000_0000_0000"),
            Err(AsonError::MessageWithLocation(
                _,
                Location {
                    // unit: 0,
                    index: 0,
                    line: 0,
                    column: 0,
                    length: 43
                }
            ))
        ));

        // err: negative overflow
        assert!(matches!(
            lex_from_str_without_location("-0b1000_0000_0000_0000__0000_0000_0000_0001"),
            Err(AsonError::MessageWithLocation(
                _,
                Location {
                    // unit: 0,
                    index: 0,
                    line: 0,
                    column: 0,
                    length: 43
                }
            ))
        ));
    }

    // byte
    {
        assert_eq!(
            lex_from_str_without_location("0b0111_1111_i8").unwrap(),
            vec![Token::Number(NumberToken::I8(0x7f_i8 as u8))]
        );

        assert_eq!(
            lex_from_str_without_location("-0b1000_0000_i8").unwrap(),
            vec![Token::Number(NumberToken::I8(-0x80_i8 as u8))]
        );

        // err: positive overflow
        assert!(matches!(
            lex_from_str_without_location("+0b1000_0000_i8"),
            Err(AsonError::MessageWithLocation(
                _,
                Location {
                    // unit: 0,
                    index: 0,
                    line: 0,
                    column: 0,
                    length: 15
                }
            ))
        ));

        // err: negative overflow
        assert!(matches!(
            lex_from_str_without_location("-0b1000_0001_i8"),
            Err(AsonError::MessageWithLocation(
                _,
                Location {
                    // unit: 0,
                    index: 0,
                    line: 0,
                    column: 0,
                    length: 15
                }
            ))
        ));

        // err: unsigned number with minus sign
        assert!(matches!(
            lex_from_str_without_location("-0b1_u8"),
            Err(AsonError::MessageWithLocation(
                _,
                Location {
                    // unit: 0,
                    index: 0,
                    line: 0,
                    column: 0,
                    length: 7
                }
            ))
        ));
    }

    // short
    {
        assert_eq!(
            lex_from_str_without_location("+0b0111_1111_1111_1111_i16").unwrap(),
            vec![Token::Number(NumberToken::I16(0x7fff_i16 as u16))]
        );

        assert_eq!(
            lex_from_str_without_location("-0b1000_0000_0000_0000_i16").unwrap(),
            vec![Token::Number(NumberToken::I16(-0x8000_i16 as u16))]
        );

        // err: positive overflow
        assert!(matches!(
            lex_from_str_without_location("+0b1000_0000_0000_0000_i16"),
            Err(AsonError::MessageWithLocation(
                _,
                Location {
                    // unit: 0,
                    index: 0,
                    line: 0,
                    column: 0,
                    length: 26
                }
            ))
        ));

        // err: negative overflow
        assert!(matches!(
            lex_from_str_without_location("-0b1000_0000_0000_0001_i16"),
            Err(AsonError::MessageWithLocation(
                _,
                Location {
                    // unit: 0,
                    index: 0,
                    line: 0,
                    column: 0,
                    length: 26
                }
            ))
        ));

        // err: unsigned number with minus sign
        assert!(matches!(
            lex_from_str_without_location("-0b1_u16"),
            Err(AsonError::MessageWithLocation(
                _,
                Location {
                    // unit: 0,
                    index: 0,
                    line: 0,
                    column: 0,
                    length: 8
                }
            ))
        ));
    }

    // int
    {
        assert_eq!(
            lex_from_str_without_location("+0b0111_1111_1111_1111__1111_1111_1111_1111_i32")
                .unwrap(),
            vec![Token::Number(NumberToken::I32(0x7fff_ffff_i32 as u32))]
        );

        assert_eq!(
            lex_from_str_without_location("-0b1000_0000_0000_0000__0000_0000_0000_0000_i32")
                .unwrap(),
            vec![Token::Number(NumberToken::I32(-0x8000_0000_i32 as u32))]
        );

        // err: positive overflow
        assert!(matches!(
            lex_from_str("+0b1000_0000_0000_0000__0000_0000_0000_0000_i32"),
            Err(AsonError::MessageWithLocation(
                _,
                Location {
                    // unit: 0,
                    index: 0,
                    line: 0,
                    column: 0,
                    length: 47
                }
            ))
        ));

        // err: negative overflow
        assert!(matches!(
            lex_from_str_without_location("-0b1000_0000_0000_0000__0000_0000_0000_0001_i32"),
            Err(AsonError::MessageWithLocation(
                _,
                Location {
                    // unit: 0,
                    index: 0,
                    line: 0,
                    column: 0,
                    length: 47
                }
            ))
        ));

        // err: unsigned number with minus sign
        assert!(matches!(
            lex_from_str_without_location("-0b1_u32"),
            Err(AsonError::MessageWithLocation(
                _,
                Location {
                    // unit: 0,
                    index: 0,
                    line: 0,
                    column: 0,
                    length: 8
                }
            ))
        ));
    }

    // long
    {
        assert_eq!(
            lex_from_str_without_location("0b0111_1111_1111_1111__1111_1111_1111_1111__1111_1111_1111_1111__1111_1111_1111_1111_i64").unwrap(),
            vec![Token::Number(NumberToken::I64(0x7fff_ffff_ffff_ffff_i64 as u64))]
        );

        assert_eq!(
            lex_from_str_without_location("-0b1000_0000_0000_0000__0000_0000_0000_0000__0000_0000_0000_0000__0000_0000_0000_0000_i64").unwrap(),
            vec![Token::Number(NumberToken::I64(-0x8000_0000_0000_0000_i64 as u64))]
        );

        // err: positive overflow
        assert!(matches!(
            lex_from_str("+0b1000_0000_0000_0000__0000_0000_0000_0000__0000_0000_0000_0000__0000_0000_0000_0000_i64"),
            Err(AsonError::MessageWithLocation(
                _,
                Location {
                    // unit: 0,
                    index: 0,
                    line: 0,
                    column: 0,
                    length: 89
                }
            ))
        ));

        // err: negative overflow
        assert!(matches!(
            lex_from_str_without_location("-0b1000_0000_0000_0000__0000_0000_0000_0000__0000_0000_0000_0000__0000_0000_0000_0001_i64"),
            Err(AsonError::MessageWithLocation(
                _,
                Location {
                    // unit: 0,
                    index: 0,
                    line: 0,
                    column: 0,
                    length: 89
                }

            ))
        ));

        // err: unsigned number with minus sign
        assert!(matches!(
            lex_from_str_without_location("-0b1_u64"),
            Err(AsonError::MessageWithLocation(
                _,
                Location {
                    // unit: 0,
                    index: 0,
                    line: 0,
                    column: 0,
                    length: 8
                }
            ))
        ));

        // location

        {
            assert_eq!(
                lex_from_str("+0b101").unwrap(),
                vec![TokenWithRange::from_position_and_length(
                    Token::Number(NumberToken::I32(0b101_i32 as u32)),
                    &Location::new_position(/*0,*/ 0, 0, 0),
                    6
                )]
            );

            assert_eq!(
                lex_from_str("-0b010").unwrap(),
                vec![TokenWithRange::from_position_and_length(
                    Token::Number(NumberToken::I32(-0b010_i32 as u32)),
                    &Location::new_position(/*0,*/ 0, 0, 0),
                    6
                )]
            );

            assert_eq!(
                lex_from_str("+0b101,-0b010").unwrap(),
                vec![
                    TokenWithRange::from_position_and_length(
                        Token::Number(NumberToken::I32(0b101_i32 as u32)),
                        &Location::new_position(/*0,*/ 0, 0, 0),
                        6
                    ),
                    TokenWithRange::from_position_and_length(
                        Token::Comma,
                        &Location::new_position(/*0,*/ 6, 0, 6),
                        1
                    ),
                    TokenWithRange::from_position_and_length(
                        Token::Number(NumberToken::I32(-0b010_i32 as u32)),
                        &Location::new_position(/*0,*/ 7, 0, 7),
                        6
                    )
                ]
            );
        }
    }
}

#[test]
fn test_normalize_signed_integer_overflow_binary() {
    assert!(matches!(
        lex_from_str_without_location("0b1000_0000_0000_0000__0000_0000_0000_0000"),
        Err(AsonError::MessageWithLocation(
            _,
            Location {
                // unit: 0,
                index: 0,
                line: 0,
                column: 0,
                length: 42
            }
        ))
    ));

    assert!(matches!(
        lex_from_str_without_location("0b1000_0000_i8"),
        Err(AsonError::MessageWithLocation(
            _,
            Location {
                // unit: 0,
                index: 0,
                line: 0,
                column: 0,
                length: 14
            }
        ))
    ));

    assert!(matches!(
        lex_from_str_without_location("0b1000_0000_0000_0000_i16"),
        Err(AsonError::MessageWithLocation(
            _,
            Location {
                // unit: 0,
                index: 0,
                line: 0,
                column: 0,
                length: 25
            }
        ))
    ));

    assert!(matches!(
        lex_from_str("0b1000_0000_0000_0000__0000_0000_0000_0000_i32"),
        Err(AsonError::MessageWithLocation(
            _,
            Location {
                // unit: 0,
                index: 0,
                line: 0,
                column: 0,
                length: 46
            }
        ))
    ));

    assert!(matches!(
        lex_from_str("0b1000_0000_0000_0000__0000_0000_0000_0000__0000_0000_0000_0000__0000_0000_0000_0000_i64"),
        Err(AsonError::MessageWithLocation(
            _,
            Location {
                // unit: 0,
                index: 0,
                line: 0,
                column: 0,
                length: 88
            }
        ))
    ));
}

fn to_f64(literal: &FloatLiteral) -> f64 {
    let magnitude = match &literal.magnitude {
        FloatMagnitude::NaN => f64::NAN,
        FloatMagnitude::Infinity => f64::INFINITY,
        FloatMagnitude::Decimal { digits, exponent } => {
            format!("{}e{}", digits, exponent).parse::<f64>().unwrap()
        }
        FloatMagnitude::Hexadecimal { digits, exponent } => {
            (u128::from_str_radix(digits, 16).unwrap() as f64) * 2f64.powi(*exponent as i32)
        }
    };
    if literal.negative {
        -magnitude
    } else {
        magnitude
    }
}

fn to_f32(literal: &FloatLiteral) -> f32 {
    let magnitude = match &literal.magnitude {
        FloatMagnitude::NaN => f32::NAN,
        FloatMagnitude::Infinity => f32::INFINITY,
        FloatMagnitude::Decimal { digits, exponent } => {
            format!("{}e{}", digits, exponent).parse::<f32>().unwrap()
        }
        FloatMagnitude::Hexadecimal { digits, exponent } => {
            (u128::from_str_radix(digits, 16).unwrap() as f32) * 2f32.powi(*exponent as i32)
        }
    };
    if literal.negative {
        -magnitude
    } else {
        magnitude
    }
}

/// The value of the one token of `tokens`, which has to be a number of the
/// bucket `f64`.
fn only_f64(tokens: &[Token]) -> f64 {
    assert_eq!(tokens.len(), 1);
    match &tokens[0] {
        Token::Number(NumberToken::F64(literal)) => to_f64(literal),
        other => panic!("not an f64 number: {:?}", other),
    }
}

/// The value of the one token of `tokens`, which has to be a number of the
/// bucket `f32`.
fn only_f32(tokens: &[Token]) -> f32 {
    assert_eq!(tokens.len(), 1);
    match &tokens[0] {
        Token::Number(NumberToken::F32(literal)) => to_f32(literal),
        other => panic!("not an f32 number: {:?}", other),
    }
}

/// The value and the range of the one token of `tokens`.
fn only_f64_with_range(tokens: &[TokenWithRange]) -> (f64, Location) {
    assert_eq!(tokens.len(), 1);
    (only_f64(&[tokens[0].token.clone()]), tokens[0].range)
}

fn only_f32_with_range(tokens: &[TokenWithRange]) -> (f32, Location) {
    assert_eq!(tokens.len(), 1);
    (only_f32(&[tokens[0].token.clone()]), tokens[0].range)
}

fn range_from_start(length: usize) -> Location {
    Location::from_position_and_length(&Location::new_position(0, 0, 0), length)
}

#[test]
fn test_normalize_plus_and_minus_floating_point_numbers() {
    // general
    assert_eq!(
        only_f64_with_range(&lex_from_str("+3.402_823_5e+38").unwrap()),
        (3.402_823_5e38f64, range_from_start(16))
    );

    assert_eq!(
        only_f64_with_range(&lex_from_str("-3.402_823_5e+38").unwrap()),
        (-3.402_823_5e38f64, range_from_start(16))
    );

    // 0.0, +0.0, -0.0
    {
        assert_eq!(
            only_f64(&lex_from_str_without_location("0.0").unwrap()),
            0f64
        );

        assert_eq!(
            only_f64_with_range(&lex_from_str("+0.0").unwrap()),
            (0f64, range_from_start(4))
        );

        // +0 == -0
        assert_eq!(
            only_f64_with_range(&lex_from_str("-0.0").unwrap()),
            (0f64, range_from_start(4))
        );
    }

    // NaN
    {
        let t = lex_from_str_without_location("NaN").unwrap();
        assert!(matches!(&t[0], Token::Number(NumberToken::F64(v)) if to_f64(v).is_nan()));
    }

    // Inf
    {
        assert_eq!(
            only_f64(&lex_from_str_without_location("Inf").unwrap()),
            f64::INFINITY
        );

        assert_eq!(
            only_f64_with_range(&lex_from_str("+Inf").unwrap()),
            (f64::INFINITY, range_from_start(4))
        );

        assert_eq!(
            only_f64_with_range(&lex_from_str("-Inf").unwrap()),
            (f64::NEG_INFINITY, range_from_start(4))
        );
    }

    // err: +NaN
    assert!(matches!(
        lex_from_str_without_location("+NaN"),
        Err(AsonError::MessageWithLocation(
            _,
            Location {
                index: 0,
                line: 0,
                column: 0,
                length: 4
            }
        ))
    ));

    // err: -NaN
    assert!(matches!(
        lex_from_str_without_location("-NaN"),
        Err(AsonError::MessageWithLocation(
            _,
            Location {
                index: 0,
                line: 0,
                column: 0,
                length: 4
            }
        ))
    ));
}

#[test]
fn test_normalize_plus_and_minus_floating_point_numbers_with_explicit_type() {
    // single precision, f32
    {
        assert_eq!(
            only_f32_with_range(&lex_from_str("+1.602_176_6e-19_f32").unwrap()),
            (1.602_176_6e-19f32, range_from_start(20))
        );

        assert_eq!(
            only_f32_with_range(&lex_from_str("-1.602_176_6e-19_f32").unwrap()),
            (-1.602_176_6e-19f32, range_from_start(20))
        );

        assert_eq!(
            only_f32(&lex_from_str_without_location("0_f32").unwrap()),
            0f32
        );

        assert_eq!(
            only_f32_with_range(&lex_from_str("+0_f32").unwrap()),
            (0f32, range_from_start(6))
        );

        // +0 == -0
        assert_eq!(
            only_f32_with_range(&lex_from_str("-0_f32").unwrap()),
            (0f32, range_from_start(6))
        );

        let t = lex_from_str_without_location("NaN_f32").unwrap();
        assert!(matches!(&t[0], Token::Number(NumberToken::F32(v)) if to_f32(v).is_nan()));

        assert_eq!(
            only_f32(&lex_from_str_without_location("Inf_f32").unwrap()),
            f32::INFINITY
        );

        assert_eq!(
            only_f32_with_range(&lex_from_str("+Inf_f32").unwrap()),
            (f32::INFINITY, range_from_start(8))
        );

        assert_eq!(
            only_f32_with_range(&lex_from_str("-Inf_f32").unwrap()),
            (f32::NEG_INFINITY, range_from_start(8))
        );

        // err: +NaN
        assert!(matches!(
            lex_from_str_without_location("+NaN_f32"),
            Err(AsonError::MessageWithLocation(
                _,
                Location {
                    index: 0,
                    line: 0,
                    column: 0,
                    length: 8
                }
            ))
        ));

        // err: -NaN
        assert!(matches!(
            lex_from_str_without_location("-NaN_f32"),
            Err(AsonError::MessageWithLocation(
                _,
                Location {
                    index: 0,
                    line: 0,
                    column: 0,
                    length: 8
                }
            ))
        ));
    }

    // double precision, f64
    {
        assert_eq!(
            only_f64_with_range(&lex_from_str("+1.797_693_134_862_315_7e+308_f64").unwrap()),
            (1.797_693_134_862_315_7e308_f64, range_from_start(33))
        );

        assert_eq!(
            only_f64_with_range(&lex_from_str("-1.797_693_134_862_315_7e+308_f64").unwrap()),
            (-1.797_693_134_862_315_7e308_f64, range_from_start(33))
        );

        assert_eq!(
            only_f64(&lex_from_str_without_location("0_f64").unwrap()),
            0f64
        );

        assert_eq!(
            only_f64_with_range(&lex_from_str("+0_f64").unwrap()),
            (0f64, range_from_start(6))
        );

        // +0 == -0
        assert_eq!(
            only_f64_with_range(&lex_from_str("-0_f64").unwrap()),
            (0f64, range_from_start(6))
        );

        let t = lex_from_str_without_location("NaN_f64").unwrap();
        assert!(matches!(&t[0], Token::Number(NumberToken::F64(v)) if to_f64(v).is_nan()));

        assert_eq!(
            only_f64(&lex_from_str_without_location("Inf_f64").unwrap()),
            f64::INFINITY
        );

        assert_eq!(
            only_f64_with_range(&lex_from_str("+Inf_f64").unwrap()),
            (f64::INFINITY, range_from_start(8))
        );

        assert_eq!(
            only_f64_with_range(&lex_from_str("-Inf_f64").unwrap()),
            (f64::NEG_INFINITY, range_from_start(8))
        );

        // err: +NaN
        assert!(matches!(
            lex_from_str_without_location("+NaN_f64"),
            Err(AsonError::MessageWithLocation(
                _,
                Location {
                    index: 0,
                    line: 0,
                    column: 0,
                    length: 8
                }
            ))
        ));

        // err: -NaN
        assert!(matches!(
            lex_from_str_without_location("-NaN_f64"),
            Err(AsonError::MessageWithLocation(
                _,
                Location {
                    index: 0,
                    line: 0,
                    column: 0,
                    length: 8
                }
            ))
        ));
    }
}

#[test]
fn test_normalize_plus_and_minus_hex_floating_point_numbers() {
    // 3.1415927f32
    assert_eq!(
        only_f32(&lex_from_str_without_location("+0x1.921fb6p1f32").unwrap()),
        std::f32::consts::PI
    );

    // -2.718281828459045f64
    assert_eq!(
        only_f64(&lex_from_str_without_location("-0x1.5bf0a8b145769p+1_f64").unwrap()),
        -std::f64::consts::E
    );

    // location

    let tokens = lex_from_str("+0x1.921fb6p1f32,-0x1.5bf0a8b145769p+1_f64").unwrap();
    assert_eq!(tokens.len(), 3);
    assert_eq!(
        only_f32_with_range(&tokens[0..1]),
        (
            std::f32::consts::PI,
            Location::from_position_and_length(&Location::new_position(0, 0, 0), 16)
        )
    );
    assert_eq!(
        tokens[1],
        TokenWithRange::from_position_and_length(
            Token::Comma,
            &Location::new_position(16, 0, 16),
            1
        )
    );
    assert_eq!(
        only_f64_with_range(&tokens[2..3]),
        (
            -std::f64::consts::E,
            Location::from_position_and_length(&Location::new_position(17, 0, 17), 25)
        )
    );
}
