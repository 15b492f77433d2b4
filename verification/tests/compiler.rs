use monkey::ast::InfixOperator;
use monkey::code::Op;
use monkey::code::Program;
use monkey::compiler::Compiler;
use monkey::object::Object;
use monkey::parser::parse;
use monkey::token::Span;

#[test]
fn test_integer_arithmetic() {
    let tests = [(
        "1 + 2",
        vec![Object::Integer(1), Object::Integer(2)],
        vec![Op::Constant(0), Op::Constant(1), Op::Add],
    )];

    check_compiled(&tests);
}

fn check_compiled(cases: &[(&str, Vec<Object>, Vec<Op>)]) {
    for (input, expected_constants, expected_ops) in cases {
        let program = compile_source(input);
        let constants: Vec<&Object> = program.constants.iter().map(|c| &c.object).collect();
        assert_eq!(constants, expected_constants.iter().collect::<Vec<_>>());
        assert_eq!(&program.ops, expected_ops);
    }
}

pub fn compile_source(input: &str) -> Program {
    Compiler::default().compile(parse(input).unwrap())
}

fn at(start: usize, end: usize) -> Span {
    Span { start, end }
}

#[test]
fn constants_carry_their_spans() {
    let program = compile_source("1 + \"two\"");
    assert_eq!(program.constants.len(), 2);
    assert_eq!(program.constants[0].span, at(0, 1));
    assert_eq!(program.constants[1].span, at(4, 9));
    assert_eq!(program.constants[1].object, Object::String("two".to_string()));
}

#[test]
fn less_than_is_greater_than_with_operands_exchanged() {
    assert_eq!(compile_source("1 < 2").ops, vec![Op::Constant(0), Op::Constant(1), Op::GT]);
    let program = compile_source("1 < 2");
    assert_eq!(program.constants[0].object, Object::Integer(2));
    assert_eq!(program.constants[1].object, Object::Integer(1));
    let program = compile_source("1 > 2");
    assert_eq!(program.ops, vec![Op::Constant(0), Op::Constant(1), Op::GT]);
    assert_eq!(program.constants[0].object, Object::Integer(1));
}

#[test]
fn statements() {
    assert_eq!(
        compile_source("1; 2").ops,
        vec![Op::Constant(0), Op::Pop, Op::Constant(1)]
    );
    assert_eq!(
        compile_source("let x = 1; x").ops,
        vec![
            Op::Constant(0),
            Op::Bind("x".to_string()),
            Op::Get { name: "x".to_string(), span: at(11, 12) }
        ]
    );
    assert_eq!(compile_source("let x = 1;").ops, vec![Op::Constant(0), Op::Bind("x".to_string())]);
    assert_eq!(compile_source("return 1; 2").ops, vec![Op::Constant(0)]);
    assert_eq!(compile_source("").ops, Vec::<Op>::new());
}

#[test]
fn literals_and_prefixes() {
    assert_eq!(compile_source("true").ops, vec![Op::True(at(0, 4))]);
    assert_eq!(compile_source("false").ops, vec![Op::False(at(0, 5))]);
    assert_eq!(compile_source("null").ops, vec![Op::Null(at(0, 4))]);
    assert_eq!(compile_source("-1").ops, vec![Op::Constant(0), Op::Neg(at(0, 2))]);
    assert_eq!(compile_source("!true").ops, vec![Op::True(at(1, 5)), Op::Not(at(0, 5))]);
}

#[test]
fn conditionals_are_patched() {
    assert_eq!(
        compile_source("if (true) { 10 } else { 20 }; 30").ops,
        vec![
            Op::True(at(4, 8)),
            Op::JumpIfNot(4),
            Op::Constant(0),
            Op::Jump(5),
            Op::Constant(1),
            Op::Pop,
            Op::Constant(2),
        ]
    );
    assert_eq!(
        compile_source("if (true) { 10 }; 30").ops,
        vec![Op::True(at(4, 8)), Op::JumpIfNot(3), Op::Constant(0), Op::Pop, Op::Constant(1)]
    );
    assert_eq!(
        compile_source("if (true) { let a = 1; } else { return 2; }").ops,
        vec![
            Op::True(at(4, 8)),
            Op::JumpIfNot(6),
            Op::Constant(0),
            Op::Bind("a".to_string()),
            Op::Null(at(10, 24)),
            Op::Jump(8),
            Op::Constant(1),
            Op::ReturnValue,
        ]
    );
}

#[test]
fn collections_are_compiled_in_reverse() {
    assert_eq!(
        compile_source("[1, 2]").ops,
        vec![Op::Constant(0), Op::Constant(1), Op::Array { size: 2, span: at(0, 6) }]
    );
    let program = compile_source("[1, 2]");
    assert_eq!(program.constants[0].object, Object::Integer(2));
    assert_eq!(program.constants[1].object, Object::Integer(1));
    let program = compile_source("{1: 2, 3: 4}");
    assert_eq!(
        program.ops,
        vec![
            Op::Constant(0),
            Op::Constant(1),
            Op::Constant(2),
            Op::Constant(3),
            Op::Hash { size: 2, span: at(0, 12) }
        ]
    );
    let constants: Vec<&Object> = program.constants.iter().map(|c| &c.object).collect();
    assert_eq!(
        constants,
        vec![&Object::Integer(4), &Object::Integer(3), &Object::Integer(2), &Object::Integer(1)]
    );
    assert_eq!(
        compile_source("a[0]").ops,
        vec![Op::Get { name: "a".to_string(), span: at(0, 1) }, Op::Constant(0), Op::Index(at(0, 4))]
    );
}

#[test]
fn functions_become_constants() {
    let program = compile_source("let f = fn(x, y) { x; y }; f(1, 2)");
    assert_eq!(
        program.ops,
        vec![
            Op::Constant(0),
            Op::Bind("f".to_string()),
            Op::Constant(1),
            Op::Constant(2),
            Op::Get { name: "f".to_string(), span: at(27, 28) },
            Op::Call { call_span: at(27, 34), args_span: at(28, 34) },
        ]
    );
    let Object::CompiledFunction(function) = &program.constants[0].object else {
        panic!("expected a function");
    };
    assert_eq!(
        *function.ops,
        vec![
            Op::Get { name: "x".to_string(), span: at(19, 20) },
            Op::Pop,
            Op::Get { name: "y".to_string(), span: at(22, 23) },
            Op::ReturnValue,
        ]
    );
    assert_eq!(*function.params, vec!["x".to_string(), "y".to_string()]);
    assert_eq!(function.this, Some("f".to_string()));
    assert_eq!(program.constants[0].span, at(8, 25));
    let anonymous = compile_source("fn() { let a = 1; }");
    let Object::CompiledFunction(function) = &anonymous.constants[1].object else {
        panic!("expected a function");
    };
    assert_eq!(*function.ops, vec![Op::Constant(0), Op::Bind("a".to_string()), Op::Return]);
    assert_eq!(function.this, None);
    let empty = compile_source("fn() { }");
    let Object::CompiledFunction(function) = &empty.constants[0].object else {
        panic!("expected a function");
    };
    assert_eq!(*function.ops, vec![Op::Return]);
}

#[test]
fn constants_add_up_over_programs() {
    let mut compiler = Compiler::default();
    let first = compiler.compile(parse("1").unwrap());
    assert_eq!(first.constants.len(), 1);
    let second = compiler.compile(parse("2").unwrap());
    assert_eq!(second.constants.len(), 2);
    assert_eq!(second.ops, vec![Op::Constant(1)]);
}

#[test]
fn instructions_of_operators() {
    assert_eq!(Op::from_infix(InfixOperator::Add), Op::Add);
    assert_eq!(Op::from_infix(InfixOperator::LT), Op::GT);
    assert_eq!(Op::from_infix(InfixOperator::GT), Op::GT);
    assert_eq!(Op::GT.infix(), Some(InfixOperator::GT));
    assert_eq!(Op::Neq.infix(), Some(InfixOperator::Neq));
    assert_eq!(Op::Pop.infix(), None);
}

#[test]
fn calls_of_intrinsics_name_them() {
    let program = compile_source("len([1], 2)");
    assert_eq!(
        program.ops,
        vec![
            Op::Constant(0),
            Op::Array { size: 1, span: at(4, 7) },
            Op::Constant(1),
            Op::Constant(2),
            Op::Call { call_span: at(0, 11), args_span: at(3, 11) },
        ]
    );
    let Object::CompiledFunction(marker) = &program.constants[2].object else {
        panic!("expected a function");
    };
    assert!(marker.ops.is_empty());
    assert_eq!(marker.params.len(), 2);
    assert_eq!(marker.this, Some("len".to_string()));
    assert_eq!(program.constants[2].span, at(0, 3));
}
