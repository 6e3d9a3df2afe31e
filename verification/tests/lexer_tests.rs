use expr_parser::lexer::{consume_byte, lex, lex_asterisk, lex_lparen, lex_minus, lex_number, lex_plus, lex_rparen, lex_slash, recognize_many, skip_spaces, ByteClass};
use expr_parser::token::{Annotation, LexErrorKind, Location, Token, TokenKind};

#[test]
fn test_consume_byte() {
    let input = "123";
    let test_input = input.as_bytes();
    let test_position = 2;
    let expected_byte = b'3';
    let expected_results = Ok((expected_byte, test_position + 1));
    let result = consume_byte(test_input, test_position, expected_byte);
    assert!(result.is_ok());
    assert_eq!(expected_results, result);

    let unexpected_byte = b'1';
    let expected_results2 = Err(Annotation {
        value: LexErrorKind::InvalidChar('3'),
        loc: Location(2, 3),
    });
    let result = consume_byte(test_input, test_position, unexpected_byte);
    assert!(result.is_err());
    assert_eq!(expected_results2, result);

    let expected_byte = b'3';
    let unexpected_position = 3;
    let expected_results3 = Err(Annotation {
        value: LexErrorKind::Eof,
        loc: Location(3, 3),
    });
    let result = consume_byte(test_input, unexpected_position, expected_byte);
    assert!(result.is_err());
    assert_eq!(expected_results3, result);
}

#[test]
fn test_lex_plus() {
    let input = "123+";
    let test_input = input.as_bytes();
    let test_position = 3;
    let expected_results = Ok((
        Annotation {
            value: TokenKind::Plus,
            loc: Location(3, 4),
        },
        test_position + 1,
    ));
    let result = lex_plus(test_input, test_position);
    assert!(result.is_ok());
    assert_eq!(expected_results, result);
}

#[test]
fn test_lex_minus() {
    let input = "123-";
    let test_input = input.as_bytes();
    let test_position = 3;
    let expected_results = Ok((
        Annotation {
            value: TokenKind::Minus,
            loc: Location(3, 4),
        },
        test_position + 1,
    ));
    let result = lex_minus(test_input, test_position);
    assert!(result.is_ok());
    assert_eq!(expected_results, result);
}

#[test]
fn test_lex_asterisk() {
    let input = "123*";
    let test_input = input.as_bytes();
    let test_position = 3;
    let expected_results = Ok((
        Annotation {
            value: TokenKind::Asterisk,
            loc: Location(3, 4),
        },
        test_position + 1,
    ));
    let result = lex_asterisk(test_input, test_position);
    assert!(result.is_ok());
    assert_eq!(expected_results, result);
}

#[test]
fn test_lex_slash() {
    let input = "123/";
    let test_input = input.as_bytes();
    let test_position = 3;
    let expected_results = Ok((
        Annotation {
            value: TokenKind::Slash,
            loc: Location(3, 4),
        },
        test_position + 1,
    ));
    let result = lex_slash(test_input, test_position);
    assert!(result.is_ok());
    assert_eq!(expected_results, result);
}

#[test]
fn test_lex_lparen() {
    let input = "123(";
    let test_input = input.as_bytes();
    let test_position = 3;
    let expected_results = Ok((
        Annotation {
            value: TokenKind::Lparen,
            loc: Location(3, 4),
        },
        test_position + 1,
    ));
    let result = lex_lparen(test_input, test_position);
    assert!(result.is_ok());
    assert_eq!(expected_results, result);
}

#[test]
fn test_lex_rparen() {
    let input = "123)";
    let test_input = input.as_bytes();
    let test_position = 3;
    let expected_results = Ok((
        Annotation {
            value: TokenKind::Rparen,
            loc: Location(3, 4),
        },
        test_position + 1,
    ));
    let result = lex_rparen(test_input, test_position);
    assert!(result.is_ok());
    assert_eq!(expected_results, result);
}

#[test]
fn test_lex_number() {
    let input = "1235()";
    let test_input = input.as_bytes();
    let test_position = 0;
    let expected_results = Ok((
        Annotation {
            value: TokenKind::Number(1235),
            loc: Location(0, 4),
        },
        4,
    ));
    let result = lex_number(test_input, test_position);
    assert!(result.is_ok());
    assert_eq!(expected_results, result);
}

#[test]
fn test_skip_spaces() {
    let input = " \n\t123";
    let test_input = input.as_bytes();
    let test_position = 0;
    let expected_results = Ok(((), 3));
    let result = skip_spaces(test_input, test_position);
    assert!(result.is_ok());
    assert_eq!(expected_results, result);
}

#[test]
fn test_recognize_many() {
    let input = "4789+++";
    let test_input = input.as_bytes();
    let test_position = 2;
    let expected_result = 4;
    let result = recognize_many(test_input, test_position, ByteClass::Digit);
    assert_eq!(expected_result, result);
}

#[test]
fn test_lexer() {
    assert_eq!(
        lex("1 + 2 * 3 - - 10"),
        Ok(vec![
            Token::number(1, Location(0, 1)),
            Token::plus(Location(2, 3)),
            Token::number(2, Location(4, 5)),
            Token::asterisk(Location(6, 7)),
            Token::number(3, Location(8, 9)),
            Token::minus(Location(10, 11)),
            Token::minus(Location(12, 13)),
            Token::number(10, Location(14, 16)),
        ])
    )
}
