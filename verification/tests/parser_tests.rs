use expr_parser::ast::{Ast, BinaryOperation, BinaryOperationKind, UnaryOperation};
use expr_parser::parser::parse;
use expr_parser::token::{Location, Token};

#[test]
fn test_parser() {
    // 1 + 2 * 3 - -10
    let ast = parse(vec![
        Token::number(1, Location(0, 1)),
        Token::plus(Location(2, 3)),
        Token::number(2, Location(4, 5)),
        Token::asterisk(Location(6, 7)),
        Token::number(3, Location(8, 9)),
        Token::minus(Location(10, 11)),
        Token::minus(Location(12, 13)),
        Token::number(10, Location(13, 15)),
    ]);
    assert_eq!(
        ast,
        Ok(Ast::binary_operation(
            BinaryOperation::sub(Location(10, 11)),
            Ast::binary_operation(
                BinaryOperation::add(Location(2, 3)),
                Ast::number(1, Location(0, 1)),
                Ast::binary_operation(
                    BinaryOperation::new(BinaryOperationKind::Mult, Location(6, 7)),
                    Ast::number(2, Location(4, 5)),
                    Ast::number(3, Location(8, 9)),
                    Location(4, 9)
                ),
                Location(0, 9),
            ),
            Ast::unary_operation(
                UnaryOperation::minus(Location(12, 13)),
                Ast::number(10, Location(13, 15)),
                Location(12, 15)
            ),
            Location(0, 15)
        ))
    )
}
