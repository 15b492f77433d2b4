use monkey::ast::Expression;
use monkey::ast::Identifier;
use monkey::ast::InfixOperator;
use monkey::ast::Node;
use monkey::ast::PrefixOperator;
use monkey::ast::Program;
use monkey::ast::Statement;
use monkey::token::Span;
use monkey::token::Token;
use monkey::token::TokenKind;

#[test]
fn display() {
    let let_token = Token {
        kind: TokenKind::Let,
        literal: "let".to_string(),
        span: (0..3).into(),
    };
    let program = Program {
        statements: vec![Statement::Let {
            let_span: let_token.span,
            name: Identifier {
                token: Token {
                    kind: TokenKind::Ident,
                    literal: "myVar".to_string(),
                    span: (4..9).into(),
                },
                value: "myVar".to_string(),
            },
            value: Expression::Identifier(Identifier {
                token: Token {
                    kind: TokenKind::Ident,
                    literal: "anotherVar".to_string(),
                    span: (10..20).into(),
                },
                value: "anotherVar".to_string(),
            }),
        }],
    };

    assert_eq!(program.to_string().trim(), "let myVar = (anotherVar);");
}

#[test]
fn node_span_of_a_hand_made_tree() {
    let expr = Expression::Prefix {
        op_span: Span { start: 2, end: 3 },
        operator: PrefixOperator::Neg,
        operand: Box::new(Expression::Integer { span: Span { start: 3, end: 5 }, value: 15 }),
    };
    assert_eq!(Node::span(&expr), Span { start: 2, end: 5 });
    assert_eq!(expr.to_string(), "(-(15))");
    let statement = Statement::Return { return_span: Span { start: 0, end: 6 }, value: expr };
    assert_eq!(statement.span(), Span { start: 0, end: 5 });
    assert_eq!(statement.to_string(), "return (-(15));");
}

#[test]
fn operator_symbols() {
    assert_eq!(InfixOperator::Add.to_string(), "+");
    assert_eq!(InfixOperator::Neq.to_string(), "!=");
    assert_eq!(InfixOperator::LT.symbol(), "<");
    assert_eq!(PrefixOperator::Not.to_string(), "!");
    assert_eq!(PrefixOperator::Neg.symbol(), "-");
}

#[test]
fn negative_and_extreme_integers_display() {
    let low = Expression::Integer { span: Span::default(), value: i64::MIN };
    assert_eq!(low.to_string(), "(-9223372036854775808)");
    let zero = Expression::Integer { span: Span::default(), value: 0 };
    assert_eq!(zero.to_string(), "(0)");
    let high = Expression::Integer { span: Span::default(), value: i64::MAX };
    assert_eq!(high.to_string(), "(9223372036854775807)");
}
