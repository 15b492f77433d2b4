use monkey::ast::Expression;
use monkey::ast::InfixOperator;
use monkey::ast::PrefixOperator;
use monkey::ast::Program;
use monkey::ast::Statement;
use monkey::compiler::StatementKind;
use monkey::parser::parse;
use monkey::parser::ErrorKind;
use monkey::parser::Expected;
use monkey::token::Span;
use monkey::token::TokenKind;

pub fn get_program(input: &str) -> Program {
    parse(input).unwrap_or_else(|errors| {
        panic!(
            "failed to parse program:{}",
            errors
                .into_iter()
                .fold(String::new(), |acc, e| format!("{acc}\n{}", e.to_string()))
        );
    })
}

fn test_let_statement(found: &Statement, expected_name: &str) {
    let Statement::Let { name, .. } = found else {
        panic!("expected let statement, got {:?}", found.kind());
    };

    assert_eq!(name.value, expected_name);
}

fn test_int_literal(expression: &Expression, expected_value: i64) {
    let Expression::Integer { value, .. } = expression else {
        panic!("expected integer expression, got {:?}", expression);
    };

    assert_eq!(*value, expected_value);
}

fn test_ident(expression: &Expression, value: &str) {
    let Expression::Identifier(identifier) = expression else {
        panic!("expected identifier expression, got {:?}", expression);
    };

    assert_eq!(identifier.value, value);
}

fn test_boolean(expression: &Expression, expected_value: bool) {
    let Expression::Boolean { value, .. } = expression else {
        panic!("expected boolean expression, got {:?}", expression);
    };

    assert_eq!(*value, expected_value);
}

enum LiteralValue<'a> {
    Integer(i64),
    Identifier(&'a str),
    Boolean(bool),
}

fn test_literal_expr(expression: &Expression, expected_value: LiteralValue<'_>) {
    match expected_value {
        LiteralValue::Integer(expected_value) => test_int_literal(expression, expected_value),
        LiteralValue::Identifier(expected_value) => test_ident(expression, expected_value),
        LiteralValue::Boolean(expected_value) => test_boolean(expression, expected_value),
    }
}

fn test_infix_expr(
    expression: &Expression,
    expected_left: LiteralValue<'_>,
    expected_operator: InfixOperator,
    expected_right: LiteralValue<'_>,
) {
    let Expression::Infix {
        left,
        operator,
        right,
    } = expression
    else {
        panic!("expected infix expression, got {:?}", expression);
    };

    test_literal_expr(left, expected_left);
    assert_eq!(*operator, expected_operator);
    test_literal_expr(right, expected_right);
}

#[test]
fn let_statements() {
    let input = r#"
let x = 5;
let y = 10;
let foobar = 838383;
"#;

    let program = get_program(input);

    assert_eq!(program.statements.len(), 3);

    let tests = ["x", "y", "foobar"];

    for (expected, found) in tests.into_iter().zip(program.statements.iter()) {
        test_let_statement(found, expected);
    }
}

#[test]
fn return_statements() {
    let input = r#"
return 5;
return 10;
return 993322;
"#;

    let program = get_program(input);
    assert_eq!(program.statements.len(), 3);

    for statement in program.statements.iter() {
        assert_eq!(statement.kind(), StatementKind::Return);
    }
}

#[test]
fn ident_expr() {
    let input = "foobar;";

    let program = get_program(input);

    assert_eq!(program.statements.len(), 1);

    let Statement::Expression(expression) = program.statements.first().unwrap() else {
        panic!(
            "expected expression statement, got {:?}",
            program.statements.first().unwrap().kind()
        );
    };

    let Expression::Identifier(ident) = expression else {
        panic!("expected identifier expression, got {:?}", expression);
    };

    assert_eq!(ident.value, "foobar");
}

#[test]
fn int_literal_expr() {
    let input = "5;";

    let program = get_program(input);

    assert_eq!(program.statements.len(), 1);
    let Statement::Expression(expression) = program.statements.first().unwrap() else {
        panic!(
            "expected expression statement, got {:?}",
            program.statements.first().unwrap().kind()
        );
    };

    test_literal_expr(expression, LiteralValue::Integer(5));
}

#[test]
fn prefix_expr() {
    let tests = [
        ("!5;", PrefixOperator::Not, 5),
        ("-15;", PrefixOperator::Neg, 15),
    ];

    for (expected_operator, expected_operand, program) in
        tests.into_iter().map(|(i, o, a)| (o, a, get_program(i)))
    {
        assert_eq!(program.statements.len(), 1);

        let Statement::Expression(expression) = program.statements.first().unwrap() else {
            panic!(
                "expected expression statement, got {:?}",
                program.statements.first().unwrap().kind()
            );
        };

        let Expression::Prefix {
            operator, operand, ..
        } = expression
        else {
            panic!("expected prefix expression, got {:?}", expression);
        };

        assert_eq!(*operator, expected_operator);

        test_int_literal(operand, expected_operand);
    }
}

#[test]
fn infix_expr() {
    let tests = [
        ("5 + 5;", InfixOperator::Add, 5, 5),
        ("5 - 5;", InfixOperator::Sub, 5, 5),
        ("5 * 5;", InfixOperator::Mul, 5, 5),
        ("5 / 5;", InfixOperator::Div, 5, 5),
        ("5 < 5;", InfixOperator::LT, 5, 5),
        ("5 > 5;", InfixOperator::GT, 5, 5),
        ("5 == 5;", InfixOperator::Eq, 5, 5),
        ("5 != 5;", InfixOperator::Neq, 5, 5),
    ];

    for (expected_operator, expected_left, expected_right, program) in tests
        .into_iter()
        .map(|(i, o, l, r)| (o, l, r, get_program(i)))
    {
        assert_eq!(program.statements.len(), 1);

        let Statement::Expression(expression) = program.statements.first().unwrap() else {
            panic!(
                "expected expression statement, got {:?}",
                program.statements.first().unwrap().kind()
            )
        };

        test_infix_expr(
            expression,
            LiteralValue::Integer(expected_left),
            expected_operator,
            LiteralValue::Integer(expected_right),
        );
    }
}

#[test]
fn boolean_literal_expr() {
    let input = "true;";

    let program = get_program(input);

    assert_eq!(program.statements.len(), 1);

    let Statement::Expression(expression) = program.statements.first().unwrap() else {
        panic!(
            "expected expression statement, got {:?}",
            program.statements.first().unwrap().kind()
        );
    };

    test_literal_expr(expression, LiteralValue::Boolean(true));
}

#[test]
fn if_expr() {
    let input = "if (x < y) { x }";

    let program = get_program(input);

    assert_eq!(program.statements.len(), 1);

    let Statement::Expression(expression) = program.statements.first().unwrap() else {
        panic!(
            "expected expression statement, got {:?}",
            program.statements.first().unwrap().kind()
        );
    };

    let Expression::If {
        condition,
        consequence,
        alternative,
        ..
    } = expression
    else {
        panic!("expected if expression, got {:?}", expression);
    };

    test_infix_expr(
        condition,
        LiteralValue::Identifier("x"),
        InfixOperator::LT,
        LiteralValue::Identifier("y"),
    );

    assert_eq!(consequence.statements.len(), 1);

    let Statement::Expression(consequence) = consequence.statements.first().unwrap() else {
        panic!(
            "expected expression statement, got {:?}",
            consequence.statements.first().unwrap().kind()
        );
    };

    test_literal_expr(consequence, LiteralValue::Identifier("x"));

    assert!(alternative.is_none());
}

#[test]
fn if_else_expr() {
    let input = "if (x < y) { x } else { y }";

    let program = get_program(input);

    assert_eq!(program.statements.len(), 1);

    let Statement::Expression(expression) = program.statements.first().unwrap() else {
        panic!(
            "expected expression statement, got {:?}",
            program.statements.first().unwrap().kind()
        );
    };

    let Expression::If {
        condition,
        consequence,
        alternative,
        ..
    } = expression
    else {
        panic!("expected if expression, got {:?}", expression);
    };

    test_infix_expr(
        condition,
        LiteralValue::Identifier("x"),
        InfixOperator::LT,
        LiteralValue::Identifier("y"),
    );

    assert_eq!(consequence.statements.len(), 1);

    let Statement::Expression(consequence) = consequence.statements.first().unwrap() else {
        panic!(
            "expected expression statement, got {:?}",
            consequence.statements.first().unwrap().kind()
        );
    };

    test_literal_expr(consequence, LiteralValue::Identifier("x"));

    let Some(alternative) = alternative else {
        panic!("expected alternative");
    };

    assert_eq!(alternative.statements.len(), 1);

    let Statement::Expression(alternative) = alternative.statements.first().unwrap() else {
        panic!(
            "expected expression statement, got {:?}",
            alternative.statements.first().unwrap().kind()
        );
    };

    test_literal_expr(alternative, LiteralValue::Identifier("y"));
}

#[test]
fn fn_expr() {
    let input = "fn(x, y) { x + y; }";

    let program = get_program(input);

    assert_eq!(program.statements.len(), 1);

    let Statement::Expression(expression) = program.statements.first().unwrap() else {
        panic!(
            "expected expression statement, got {:?}",
            program.statements.first().unwrap().kind()
        );
    };

    let Expression::Function {
        parameters, body, ..
    } = expression
    else {
        panic!("expected function expression, got {:?}", expression);
    };

    assert_eq!(parameters.len(), 2);

    assert_eq!(parameters[0].value, "x");
    assert_eq!(parameters[1].value, "y");

    assert_eq!(body.statements.len(), 1);

    let Statement::Expression(body) = body.statements.first().unwrap() else {
        panic!(
            "expected expression statement, got {:?}",
            body.statements.first().unwrap().kind()
        );
    };

    test_infix_expr(
        body,
        LiteralValue::Identifier("x"),
        InfixOperator::Add,
        LiteralValue::Identifier("y"),
    );
}

#[test]
fn fn_params() {
    let tests = [
        ("fn() {};", [].as_slice()),
        ("fn(x) {};", ["x"].as_slice()),
        ("fn(x, y, z) {};", ["x", "y", "z"].as_slice()),
    ];

    for (expected, program) in tests.into_iter().map(|(i, ps)| (ps, get_program(i))) {
        assert_eq!(program.statements.len(), 1);
        let Statement::Expression(expression) = program.statements.first().unwrap() else {
            panic!(
                "expected expression statement, got {:?}",
                program.statements.first().unwrap().kind()
            );
        };

        let Expression::Function { parameters, .. } = expression else {
            panic!("expected function expression, got {:?}", expression);
        };

        assert_eq!(parameters.len(), expected.len());

        for (expected, found) in expected.iter().zip(parameters.iter()) {
            assert_eq!(*expected, found.value);
        }
    }
}

#[test]
fn call_expr() {
    let input = "add(1, 2 * 3, 4 + 5);";

    let program = get_program(input);

    assert_eq!(program.statements.len(), 1);
    let Statement::Expression(expression) = program.statements.first().unwrap() else {
        panic!(
            "expected expression statement, got {:?}",
            program.statements.first().unwrap().kind()
        );
    };

    let Expression::Call {
        function,
        arguments,
        ..
    } = expression
    else {
        panic!("expected call expression, got {:?}", expression);
    };

    test_ident(function, "add");

    assert_eq!(arguments.len(), 3);

    test_literal_expr(&arguments[0], LiteralValue::Integer(1));
    test_infix_expr(
        &arguments[1],
        LiteralValue::Integer(2),
        InfixOperator::Mul,
        LiteralValue::Integer(3),
    );
    test_infix_expr(
        &arguments[2],
        LiteralValue::Integer(4),
        InfixOperator::Add,
        LiteralValue::Integer(5),
    );
}

fn shown(input: &str) -> String {
    get_program(input).to_string().trim().to_string()
}

#[test]
fn operator_precedence() {
    assert_eq!(shown("1 + 2 * 3"), "((1) + ((2) * (3)));");
    assert_eq!(shown("1 * 2 + 3"), "(((1) * (2)) + (3));");
    assert_eq!(shown("1 - 2 - 3"), "(((1) - (2)) - (3));");
    assert_eq!(shown("-a * b"), "((-(a)) * (b));");
    assert_eq!(shown("!-a"), "(!(-(a)));");
    assert_eq!(shown("a + b == c < d"), "(((a) + (b)) == ((c) < (d)));");
    assert_eq!(shown("(1 + 2) * 3"), "(((1) + (2)) * (3));");
    assert_eq!(shown("a + f(b)[0] * c"), "((a) + ((((f)((b)))[(0)]) * (c)));");
    assert_eq!(shown("-f(x)"), "(-((f)((x))));");
}

#[test]
fn call_without_arguments() {
    assert_eq!(shown("f()"), "((f)());");
    assert_eq!(shown("f()()"), "(((f)())());");
}

#[test]
fn literals_of_every_kind() {
    assert_eq!(shown("null"), "(null);");
    assert_eq!(shown("\"hi\""), "(\"hi\");");
    assert_eq!(shown("[]"), "([]);");
    assert_eq!(shown("[1, x]"), "([(1), (x)]);");
    assert_eq!(shown("{}"), "({});");
    assert_eq!(shown("{\"a\": 1, 2: b}"), "({(\"a\"): (1), (2): (b)});");
    assert_eq!(shown("a[1][2]"), "(((a)[(1)])[(2)]);");
}

#[test]
fn display_parses_back_to_the_same_tree() {
    for input in [
        "let x = 1 + 2 * 3;",
        "return -a * (b + c);",
        "if (a < b) { a } else { let c = b; c };",
        "let f = fn(x, y) { return x[0] + y(\"s\", null); };",
        "{1: [true, false], \"k\": {}}[1][0];",
    ] {
        let once = get_program(input).to_string();
        let twice = get_program(&once).to_string();
        assert_eq!(once, twice);
    }
}

#[test]
fn spans_of_nodes() {
    let program = get_program("let x = foo(1, 2) + [3][0];");
    assert_eq!(program.span(), Span { start: 0, end: 26 });
    let Statement::Let { let_span, name, value } = &program.statements[0] else {
        panic!("expected let statement");
    };
    assert_eq!(*let_span, Span { start: 0, end: 3 });
    assert_eq!(name.span(), Span { start: 4, end: 5 });
    assert_eq!(value.span(), Span { start: 8, end: 26 });
    let Expression::Infix { left, right, .. } = value else {
        panic!("expected infix expression");
    };
    assert_eq!(left.span(), Span { start: 8, end: 17 });
    assert_eq!(right.span(), Span { start: 20, end: 26 });
    assert_eq!(get_program("").span(), Span { start: 0, end: 0 });
}

#[test]
fn errors_are_collected_per_statement() {
    let errors = parse("let = 5; let y 3; z;").unwrap_err();
    assert_eq!(errors.len(), 2);
    assert_eq!(
        errors[0].kind,
        ErrorKind::Unexpected {
            expected: Expected::Token(TokenKind::Ident),
            found: Some(TokenKind::Assign)
        }
    );
    assert_eq!(errors[0].span, Span { start: 4, end: 20 });
    assert_eq!(
        errors[1].kind,
        ErrorKind::Unexpected {
            expected: Expected::Token(TokenKind::Assign),
            found: Some(TokenKind::Int)
        }
    );
    assert_eq!(
        errors[0].to_string(),
        "Unexpected token. Expected Identifier, found `=`."
    );
}

#[test]
fn error_kinds() {
    let eof = parse("1 +").unwrap_err();
    assert_eq!(
        eof[0].kind,
        ErrorKind::Unexpected { expected: Expected::Expression, found: None }
    );
    assert_eq!(eof[0].span, Span { start: 3, end: 3 });
    assert_eq!(eof[0].to_string(), "Unexpected token. Expected expression, found end of input.");
    let no_expression = parse(")").unwrap_err();
    assert_eq!(
        no_expression[0].kind,
        ErrorKind::Unexpected { expected: Expected::Expression, found: Some(TokenKind::RParen) }
    );
    let too_big = parse("9223372036854775808").unwrap_err();
    assert_eq!(too_big[0].kind, ErrorKind::ParseInt);
    assert_eq!(too_big[0].to_string(), "Failed to parse integer literal.");
    assert!(parse("9223372036854775807").is_ok());
    let trailing = parse("f(1,)").unwrap_err();
    assert_eq!(
        trailing[0].kind,
        ErrorKind::Unexpected { expected: Expected::Expression, found: Some(TokenKind::RParen) }
    );
    let unclosed = parse("if (x) { 1 ").unwrap_err();
    assert_eq!(
        unclosed[0].kind,
        ErrorKind::Unexpected { expected: Expected::Token(TokenKind::RBrace), found: None }
    );
}

#[test]
fn semicolons_are_optional() {
    assert_eq!(get_program("1 2 3").statements.len(), 3);
    assert_eq!(get_program("let a = 1 let b = 2").statements.len(), 2);
    assert_eq!(get_program("").statements.len(), 0);
}

#[test]
fn integer_literals() {
    assert_eq!(monkey::parser::integer_of("0"), Some(0));
    assert_eq!(monkey::parser::integer_of("0042"), Some(42));
    assert_eq!(monkey::parser::integer_of("9223372036854775807"), Some(i64::MAX));
    assert_eq!(monkey::parser::integer_of("9223372036854775808"), None);
    assert_eq!(monkey::parser::integer_of(""), None);
    assert_eq!(monkey::parser::integer_of("-1"), None);
    assert_eq!(monkey::parser::integer_of("1a"), None);
}

#[test]
fn numerals_are_read_back() {
    for value in [0i64, 7, 10, 99, 100, 1234567890, i64::MAX] {
        let text = monkey::text::integer_to_string(value);
        assert_eq!(monkey::parser::integer_of(&text), Some(value));
        let Statement::Expression(Expression::Integer { value: read, .. }) =
            &get_program(&text).statements[0]
        else {
            panic!("expected an integer");
        };
        assert_eq!(*read, value);
    }
    assert_eq!(monkey::text::integer_to_string(-42), "-42");
    assert_eq!(monkey::text::integer_to_string(i64::MIN), "-9223372036854775808");
}

#[test]
fn operator_expressions_are_read_back_from_their_display() {
    for input in ["1 + 2 * -3", "!(true == false) != null", "1 - (2 - 3) - 4 / 5", "-(-1)", "1 < 2 == 3 > 4"] {
        let program = get_program(input);
        let displayed = program.to_string();
        let again = get_program(&displayed);
        assert_eq!(again.to_string(), displayed);
        assert_eq!(format!("{:?}", strip(&again)), format!("{:?}", strip(&program)));
    }
}

fn strip(program: &Program) -> Vec<String> {
    program.statements.iter().map(|s| s.to_string()).collect()
}
