use monkey::ast::InfixOperator;
use monkey::code::Op;
use monkey::code::Program;
use monkey::code::SpannedObject;
use monkey::compiler::Compiler;
use monkey::eval::ErrorKind;
use monkey::object::Environment;
use monkey::object::Object;
use monkey::object::ObjectKind;
use monkey::parser::parse;
use monkey::token::Span;
use monkey::vm::stack::Stack;
use monkey::vm::Error;
use monkey::vm::Stepped;
use monkey::vm::VM;

fn compiled(input: &str) -> Program {
    Compiler::default().compile(parse(input).unwrap())
}

fn run(input: &str) -> Object {
    match VM::new(compiled(input)).run() {
        Err(e) => {
            panic!(
                "failed to run program: {}",
                e.iter().fold(String::new(), |acc, e| format!("{acc}\n{}", e.to_string()))
            );
        }
        Ok(out) => out,
    }
}

fn run_error(input: &str) -> Error {
    let mut errors = VM::new(compiled(input)).run().unwrap_err();
    assert_eq!(errors.len(), 1);
    errors.pop().unwrap()
}

fn walk(input: &str) -> Object {
    Environment::default().eval_program(parse(input).unwrap()).unwrap()
}

#[test]
fn integer_arithmetic() {
    let tests = [
        ("1", Object::Integer(1)),
        ("2", Object::Integer(2)),
        ("1 + 2", Object::Integer(3)),
    ];

    check_run(&tests);
}

fn check_run(cases: &[(&str, Object)]) {
    for (input, expected) in cases {
        match VM::new(compiled(input)).run() {
            Err(e) => {
                panic!("failed to run program: {}", e[0].to_string());
            }
            Ok(out) => assert_eq!(out, *expected),
        }
    }
}

#[test]
fn both_engines_agree_on_the_scenarios() {
    let cases = [
        ("let x = 5; let y = 10; x + y;", Object::Integer(15)),
        (
            "let fib = fn(n) { if (n < 2) { n } else { fib(n-1) + fib(n-2) } }; fib(10);",
            Object::Integer(55),
        ),
        (
            "let make = fn(x) { fn(y) { x + y } }; let add5 = make(5); add5(3);",
            Object::Integer(8),
        ),
        (
            "let a = [1,2,3]; push(a, 4); a;",
            Object::Array(vec![Object::Integer(1), Object::Integer(2), Object::Integer(3)]),
        ),
        ("{\"a\": 1, \"b\": 2}[\"b\"]", Object::Integer(2)),
        ("{\"a\": 1}[\"missing\"]", Object::Null),
        ("\"foo\" + \"bar\"", Object::String("foobar".to_string())),
    ];
    for (input, expected) in cases {
        assert_eq!(walk(input), expected, "{input}");
        assert_eq!(run(input), expected, "{input}");
    }
}

#[test]
fn string_plus_integer_fails_on_both_engines() {
    let errors = Environment::default().eval_program(parse("\"x\" + 1").unwrap()).unwrap_err();
    assert!(matches!(
        errors[0].kind,
        ErrorKind::InvalidOperands {
            operator: InfixOperator::Add,
            left: ObjectKind::String,
            right: ObjectKind::Integer
        }
    ));
    let Error::Eval(error) = run_error("\"x\" + 1") else {
        panic!("expected an error of the program");
    };
    assert!(matches!(
        error.kind,
        ErrorKind::InvalidOperands {
            operator: InfixOperator::Add,
            left: ObjectKind::String,
            right: ObjectKind::Integer
        }
    ));
    assert_eq!(error.span, Span { start: 0, end: 7 });
}

#[test]
fn engines_agree_on_programs() {
    for input in [
        "len(\"\")",
        "len([])",
        "len({})",
        "len([1, 2, 3]) + len(\"héllo\") + len({1: 2})",
        "first([1, 2, 3])",
        "first([])",
        "last([1, 2, 3])",
        "rest([1, 2, 3])",
        "rest([])",
        "push([1], 2)",
        "push(push([], 1), first([2]))",
        "print(1, 2)",
        "let len = fn(x) { 7 }; len([1, 2])",
        "let map = fn(a, f) { if (len(a) == 0) { [] } else { push(map(rest(a), f), f(first(a))) } }; map([1, 2, 3], fn(x) { x * 2 })",
        "1 + 2 * 3 - 4 / 2",
        "-5 + 10",
        "!true == false",
        "1 < 2 == true",
        "2 < 1",
        "3 > 2",
        "\"a\" == \"a\"",
        "[1, 2, 3][1]",
        "[1, [2, 3]]",
        "{1: 2, true: 3, \"k\": 4}",
        "{1: 2, true: 3, \"k\": 4}[true]",
        "let a = [1, 2]; let b = a; b[0] + a[1]",
        "let f = fn(a, b) { a - b }; f(10, 3)",
        "let f = fn(a) { return a * 2; 7 }; f(4)",
        "let twice = fn(f, x) { f(f(x)) }; twice(fn(n) { n + 3 }, 1)",
        "let sum = fn(n) { if (n == 0) { 0 } else { n + sum(n - 1) } }; sum(50)",
        "let x = if (1 < 2) { 10 } else { 20 }; x + 1",
        "let x = if (1 > 2) { 10 } else { 20 }; x + 1",
        "if (true) { let a = 1; }",
        "9223372036854775807 + 1",
        "0 / -1",
        "null",
        "",
        "let a = 1;",
    ] {
        assert_eq!(run(input), walk(input), "{input}");
    }
}

fn chain(seed: &mut u64, depth: u32) -> String {
    *seed = seed.wrapping_mul(6364136223846793005).wrapping_add(1442695040888963407);
    let constant = (*seed >> 40) % 1000;
    if depth == 0 || (*seed >> 33) % 3 == 0 {
        return format!("{constant}");
    }
    let condition = match (*seed >> 35) % 4 {
        0 => "true".to_string(),
        1 => "false".to_string(),
        2 => format!("{} < {}", constant, (*seed >> 20) % 1000),
        _ => format!("{} == {}", constant % 3, (*seed >> 20) % 3),
    };
    format!(
        "if ({}) {{ {} }} else {{ {} }}",
        condition,
        chain(seed, depth - 1),
        chain(seed, depth - 1)
    )
}

#[test]
fn engines_agree_on_conditional_chains() {
    let mut seed = 7u64;
    for _ in 0..200 {
        let input = chain(&mut seed, 4);
        assert_eq!(run(&input), walk(&input), "{input}");
    }
}

#[test]
fn errors_of_the_program() {
    assert!(matches!(run_error("1 / 0"), Error::Eval(e) if matches!(e.kind, ErrorKind::DivisionByZero)));
    assert!(matches!(
        run_error("foo"),
        Error::Eval(e) if matches!(&e.kind, ErrorKind::UndefinedVariable(name) if name == "foo")
    ));
    assert!(matches!(run_error("1(2)"), Error::Eval(e) if matches!(e.kind, ErrorKind::NotAFunction)));
    assert!(matches!(
        run_error("-true"),
        Error::Eval(e) if matches!(e.kind, ErrorKind::InvalidOperand { operand: ObjectKind::Boolean, .. })
    ));
    assert!(matches!(
        run_error("[1,2,3][3]"),
        Error::Eval(e) if matches!(e.kind, ErrorKind::OutOfBounds { i: 3, len: 3 })
    ));
    assert!(matches!(
        run_error("[1,2,3][-1]"),
        Error::Eval(e) if matches!(e.kind, ErrorKind::OutOfBounds { i: -1, len: 3 })
    ));
    assert!(matches!(run_error("[1][true]"), Error::Eval(e) if matches!(e.kind, ErrorKind::NotAnIndex)));
    assert!(matches!(run_error("1[0]"), Error::Eval(e) if matches!(e.kind, ErrorKind::NotACollection)));
    assert!(matches!(
        run_error("{[1]: 2}"),
        Error::Eval(e) if matches!(e.kind, ErrorKind::InvalidKey(ObjectKind::Array))
    ));
    assert!(matches!(
        run_error("{1: 2}[[1]]"),
        Error::Eval(e) if matches!(e.kind, ErrorKind::InvalidKey(ObjectKind::Array))
    ));
    assert!(matches!(
        run_error("fn() {} == 1"),
        Error::Eval(e) if matches!(e.kind, ErrorKind::InvalidOperands { operator: InfixOperator::Eq, .. })
    ));
    assert!(matches!(
        run_error("fn(a, b) { a }(1)"),
        Error::Eval(e) if matches!(e.kind, ErrorKind::WrongNumberOfArguments { expected: 2, got: 1 })
    ));
}

#[test]
fn a_swapped_comparison_is_reported_as_less_than() {
    let Error::Eval(error) = run_error("true < 1") else {
        panic!("expected an error of the program");
    };
    assert!(matches!(
        error.kind,
        ErrorKind::InvalidOperands {
            operator: InfixOperator::LT,
            left: ObjectKind::Integer,
            right: ObjectKind::Boolean
        }
    ));
    let Error::Eval(error) = run_error("true > 1") else {
        panic!("expected an error of the program");
    };
    assert!(matches!(
        error.kind,
        ErrorKind::InvalidOperands { operator: InfixOperator::GT, .. }
    ));
}

#[test]
fn duplicate_keys_are_refused() {
    assert!(matches!(run_error("{1: 2, 1: 3}"), Error::Underflow));
}

#[test]
fn map_entries_pair_keys_with_their_values() {
    assert_eq!(run("{1: 10, 2: 20, 3: 30}[2]"), Object::Integer(20));
    assert_eq!(run("{1: 10, 2: 20, 3: 30}").to_string(), "{1: 10, 2: 20, 3: 30}");
    assert_eq!(run("[1, 2, 3]").to_string(), "[1, 2, 3]");
}

fn spanned(object: Object) -> SpannedObject {
    SpannedObject { object, span: Span { start: 0, end: 0 } }
}

#[test]
fn internal_errors() {
    let underflow = Program { ops: vec![Op::Add], constants: vec![] };
    assert!(matches!(VM::new(underflow).run().unwrap_err()[0], Error::Underflow));
    let missing = Program { ops: vec![Op::Constant(3)], constants: vec![] };
    assert!(matches!(VM::new(missing).run().unwrap_err()[0], Error::InvalidConstant(3)));
    let forever = Program { ops: vec![Op::Jump(0)], constants: vec![] };
    let mut vm = VM::new(forever);
    vm.step_limit = 1000;
    assert!(matches!(vm.run().unwrap_err()[0], Error::StepLimit));
    let mut ops = Vec::new();
    for _ in 0..2049 {
        ops.push(Op::Constant(0));
    }
    let full = Program { ops, constants: vec![spanned(Object::Integer(1))] };
    assert!(matches!(VM::new(full).run().unwrap_err()[0], Error::Overflow));
    assert_eq!(Error::Underflow.to_string(), "Stack underflow");
    assert_eq!(Error::Overflow.to_string(), "Stack overflow");
    assert_eq!(Error::StepLimit.to_string(), "Step limit exceeded");
    assert_eq!(Error::InvalidConstant(3).to_string(), "No constant 3");
}

#[test]
fn a_run_ends_with_the_top_of_the_stack() {
    let program = Program {
        ops: vec![Op::Constant(0), Op::Constant(1)],
        constants: vec![spanned(Object::Integer(1)), spanned(Object::Integer(2))],
    };
    let mut vm = VM::new(program);
    assert_eq!(vm.run().unwrap(), Object::Integer(2));
    assert_eq!(vm.stack.len(), 1);
    assert_eq!(VM::default().run().unwrap(), Object::Null);
}

#[test]
fn stepping() {
    let mut vm = VM::new(compiled("1 + 2"));
    assert!(matches!(vm.step(), Stepped::Next));
    assert!(matches!(vm.step(), Stepped::Next));
    assert_eq!(vm.stack.len(), 2);
    assert!(matches!(vm.step(), Stepped::Next));
    assert_eq!(vm.stack.len(), 1);
    assert_eq!(vm.stack.peek().unwrap().object, Object::Integer(3));
    assert_eq!(vm.stack.peek().unwrap().span, Span { start: 0, end: 5 });
    assert_eq!(vm.frames[0].ip, 3);
    assert!(matches!(vm.step(), Stepped::Done(Object::Integer(3))));
}

#[test]
fn a_machine_keeps_its_bindings_over_programs() {
    let mut compiler = Compiler::default();
    let mut vm = VM::default();
    vm.load(compiler.compile(parse("let a = 20;").unwrap()));
    assert_eq!(vm.run().unwrap(), Object::Null);
    vm.load(compiler.compile(parse("a + 1").unwrap()));
    assert_eq!(vm.run().unwrap(), Object::Integer(21));
}

#[test]
fn stack_operations() {
    let mut stack: Stack<i32> = Stack::new(3);
    assert_eq!(stack.pop(), None);
    assert_eq!(stack.peek(), None);
    assert_eq!(stack.push(1), Ok(()));
    assert_eq!(stack.push(2), Ok(()));
    assert_eq!(stack.push(3), Ok(()));
    assert_eq!(stack.push(4), Err(4));
    assert_eq!(stack.len(), 3);
    assert_eq!(stack.peek(), Some(&3));
    assert_eq!(stack.drain(2), vec![3, 2]);
    assert_eq!(stack.pop(), Some(1));
    assert_eq!(stack.drain(5), Vec::<i32>::new());
    let default: Stack<i32> = Stack::default();
    assert_eq!(default.capacity, 2048);
}

#[test]
fn intrinsics_on_the_machine() {
    let mut vm = VM::new(compiled("print(1, \"two\"); print(); let a = [3]; print(push(a, 4), a); len(a)"));
    assert_eq!(vm.run().unwrap(), Object::Integer(1));
    assert_eq!(vm.output, vec!["1 two".to_string(), String::new(), "[3, 4] [3]".to_string()]);
    assert!(matches!(
        run_error("len(1)"),
        Error::Eval(e) if matches!(e.kind, ErrorKind::BadTypeForLen(ObjectKind::Integer))
    ));
    assert!(matches!(
        run_error("len()"),
        Error::Eval(e) if matches!(e.kind, ErrorKind::WrongNumberOfArguments { expected: 1, got: 0 })
    ));
    assert!(matches!(
        run_error("push([1])"),
        Error::Eval(e) if matches!(e.kind, ErrorKind::WrongNumberOfArguments { expected: 2, got: 1 })
    ));
    assert!(matches!(run_error("first(1)"), Error::Eval(e) if matches!(e.kind, ErrorKind::NotAnArray)));
    assert!(matches!(
        run_error("len"),
        Error::Eval(e) if matches!(&e.kind, ErrorKind::UndefinedVariable(name) if name == "len")
    ));
}

#[test]
fn a_machine_can_be_loaded_again_after_an_error() {
    let mut compiler = Compiler::default();
    let mut vm = VM::default();
    vm.load(compiler.compile(parse("let a = 1; let f = fn(x) { x + missing }; 5; f(a)").unwrap()));
    assert!(vm.run().is_err());
    assert!(vm.frames.len() > 1);
    vm.load(compiler.compile(parse("a + 1").unwrap()));
    assert_eq!(vm.frames.len(), 1);
    assert_eq!(vm.stack.len(), 0);
    assert_eq!(vm.run().unwrap(), Object::Integer(2));
    let mut empty = VM::default();
    empty.frames.clear();
    assert_eq!(empty.run().unwrap(), Object::Null);
    empty.load(compiler.compile(parse("3").unwrap()));
    assert_eq!(empty.run().unwrap(), Object::Integer(3));
}

#[test]
fn a_failed_instruction_leaves_the_operands_taken() {
    let mut vm = VM::new(compiled("1; true + 2"));
    let errors = vm.run().unwrap_err();
    assert!(matches!(&errors[0], Error::Eval(e) if matches!(e.kind, ErrorKind::InvalidOperands { .. })));
    assert_eq!(vm.stack.len(), 0);
    assert_eq!(vm.frames[0].ip, 4);
}
