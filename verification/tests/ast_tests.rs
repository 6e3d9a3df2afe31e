use expr_parser::ast::{Ast, Astkind, BinaryOperation, BinaryOperationKind, UnaryOperation, UnaryOperationKind};
use expr_parser::token::{Annotation, Location};

#[test]
fn test_ast_number() {
    let test_number = 3;
    let test_location = Location(0, 2);
    let expected_result = Annotation {
        value: Astkind::Number(3),
        loc: Location(0, 2),
    };
    let result = Ast::number(test_number, test_location);
    assert_eq!(expected_result, result);
}

#[test]
fn test_ast_unary_operation() {
    let test_unary_operation = UnaryOperation::minus(Location(2, 4));
    let test_ast = Annotation {
        value: Astkind::Number(3),
        loc: Location(4, 5),
    };
    let test_location = Location(0, 2);
    let expect_result = Annotation {
        value: Astkind::UnaryOperation {
            operation: Annotation {
                value: UnaryOperationKind::Minus,
                loc: Location(2, 4),
            },
            expression: Box::new(Annotation {
                value: Astkind::Number(3),
                loc: Location(4, 5),
            }),
        },
        loc: Location(0, 2),
    };
    let result = Ast::unary_operation(test_unary_operation, test_ast, test_location);
    assert_eq!(expect_result, result);
}

#[test]
fn test_ast_binary_operation() {
    let test_binary_operation = BinaryOperation::add(Location(0, 2));
    let test_binary_operation_left = Ast::number(3, Location(4, 5));
    let test_binary_operation_right = Ast::unary_operation(
        UnaryOperation::minus(Location(6, 7)),
        Ast::number(8, Location(9, 10)),
        Location(11, 12),
    );
    let test_location = Location(13, 14);
    let expected_result = Annotation {
        value: Astkind::BinaryOperation {
            operation: Annotation {
                value: BinaryOperationKind::Add,
                loc: Location(0, 2),
            },
            left: Box::new(Annotation {
                value: Astkind::Number(3),
                loc: Location(4, 5),
            }),
            right: Box::new(Annotation {
                value: Astkind::UnaryOperation {
                    operation: Annotation {
                        value: UnaryOperationKind::Minus,
                        loc: Location(6, 7),
                    },
                    expression: Box::new(Annotation {
                        value: Astkind::Number(8),
                        loc: Location(9, 10),
                    }),
                },
                loc: Location(11, 12),
            }),
        },
        loc: Location(13, 14),
    };
    let result = Ast::binary_operation(
        test_binary_operation,
        test_binary_operation_left,
        test_binary_operation_right,
        test_location,
    );
    assert_eq!(expected_result, result);
}

#[test]
fn test_unary_operation_plus() {
    let test_location = Location(0, 2);
    let expect_result = Annotation {
        value: UnaryOperationKind::Plus,
        loc: Location(0, 2),
    };
    let result = UnaryOperation::plus(test_location);
    assert_eq!(expect_result, result);
}

#[test]
fn test_unary_operation_minus() {
    let test_location = Location(0, 2);
    let expect_result = Annotation {
        value: UnaryOperationKind::Minus,
        loc: Location(0, 2),
    };
    let result = UnaryOperation::minus(test_location);
    assert_eq!(expect_result, result);
}

#[test]
fn test_binary_operation_add() {
    let test_location = Location(0, 2);
    let expect_result = Annotation {
        value: BinaryOperationKind::Add,
        loc: Location(0, 2),
    };
    let result = BinaryOperation::add(test_location);
    assert_eq!(expect_result, result);
}

#[test]
fn test_binary_operation_sub() {
    let test_location = Location(0, 2);
    let expect_result = Annotation {
        value: BinaryOperationKind::Sub,
        loc: Location(0, 2),
    };
    let result = BinaryOperation::sub(test_location);
    assert_eq!(expect_result, result);
}

#[test]
fn test_binary_operation_mult() {
    let test_location = Location(0, 2);
    let expect_result = Annotation {
        value: BinaryOperationKind::Mult,
        loc: Location(0, 2),
    };
    let result = BinaryOperation::mult(test_location);
    assert_eq!(expect_result, result);
}

#[test]
fn test_binary_operation_div() {
    let test_location = Location(0, 2);
    let expect_result = Annotation {
        value: BinaryOperationKind::Div,
        loc: Location(0, 2),
    };
    let result = BinaryOperation::div(test_location);
    assert_eq!(expect_result, result);
}
