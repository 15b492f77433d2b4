use monkey::ast::InfixOperator;
use monkey::ast::PrefixOperator;
use monkey::eval::ErrorKind;
use monkey::eval::MAX_CALL_DEPTH;
use monkey::intrinsic::lookup_intrinsic;
use monkey::intrinsic::Intrinsic;
use monkey::object::Environment;
use monkey::object::Object;
use monkey::object::ObjectKind;
use monkey::object::ObjectMap;
use monkey::parser::parse;
use monkey::token::Span;

fn test_eval(input: &str) -> Object {
    Environment::default()
        .eval_program(parse(input).unwrap())
        .unwrap_or_else(|errors| {
            panic!(
                "failed to evaluate program:{}",
                errors
                    .into_iter()
                    .fold(String::new(), |acc, e| format!("{acc}\n{}", e.to_string()))
            )
        })
}

fn eval_errors(input: &str) -> Vec<monkey::eval::Error> {
    Environment::default().eval_program(parse(input).unwrap()).unwrap_err()
}

fn integers(values: &[i64]) -> Object {
    Object::Array(values.iter().map(|v| Object::Integer(*v)).collect())
}

#[test]
fn integer() {
    let tests = [("5", 5), ("10", 10), ("-5", -5), ("-10", -10)];

    for (found, expected) in tests
        .into_iter()
        .map(|(input, expected)| (test_eval(input), expected))
    {
        assert_eq!(found, Object::Integer(expected));
    }
}

#[test]
fn boolean() {
    let tests = [("true", true), ("false", false)];

    for (found, expected) in tests
        .into_iter()
        .map(|(input, expected)| (test_eval(input), expected))
    {
        assert_eq!(found, Object::Boolean(expected));
    }
}

#[test]
fn not() {
    let tests = [
        ("!true", false),
        ("!false", true),
        ("!5", false),
        ("!!true", true),
        ("!!false", false),
        ("!!5", true),
    ];

    for (found, expected) in tests
        .into_iter()
        .map(|(input, expected)| (test_eval(input), expected))
    {
        assert_eq!(found, Object::Boolean(expected));
    }
}

#[test]
fn truthiness() {
    assert!(!Object::Null.truthy());
    assert!(!Object::Boolean(false).truthy());
    assert!(Object::Boolean(true).truthy());
    assert!(Object::Integer(0).truthy());
    assert!(Object::String(String::new()).truthy());
    assert!(Object::Array(Vec::new()).truthy());
    assert!(Object::Hash(ObjectMap::new()).truthy());
    assert_eq!(test_eval("if (0) { 1 } else { 2 }"), Object::Integer(1));
    assert_eq!(test_eval("if (\"\") { 1 } else { 2 }"), Object::Integer(1));
    assert_eq!(test_eval("if (null) { 1 } else { 2 }"), Object::Integer(2));
    assert_eq!(test_eval("if (false) { 1 }"), Object::Null);
    assert_eq!(test_eval("!null"), Object::Boolean(true));
}

#[test]
fn arithmetic() {
    assert_eq!(test_eval("1 + 2 * 3 - 4 / 2"), Object::Integer(5));
    assert_eq!(test_eval("(1 + 2) * 3"), Object::Integer(9));
    assert_eq!(test_eval("7 / 2"), Object::Integer(3));
    assert_eq!(test_eval("-7 / 2"), Object::Integer(-3));
    assert_eq!(test_eval("7 / -2"), Object::Integer(-3));
    assert_eq!(test_eval("0 / -1"), Object::Integer(0));
    assert_eq!(test_eval("1 < 2"), Object::Boolean(true));
    assert_eq!(test_eval("1 > 2"), Object::Boolean(false));
    assert_eq!(test_eval("2 < 2"), Object::Boolean(false));
}

#[test]
fn integer_overflow_wraps() {
    assert_eq!(test_eval("9223372036854775807 + 1"), Object::Integer(i64::MIN));
    assert_eq!(test_eval("-9223372036854775807 - 2"), Object::Integer(i64::MAX));
    assert_eq!(test_eval("9223372036854775807 * 2"), Object::Integer(-2));
    assert_eq!(test_eval("(-9223372036854775807 - 1) / -1"), Object::Integer(i64::MIN));
    assert_eq!(test_eval("-(-9223372036854775807 - 1)"), Object::Integer(i64::MIN));
}

#[test]
fn division_by_zero_is_an_error() {
    let errors = eval_errors("1 / 0");
    assert_eq!(errors.len(), 1);
    assert!(matches!(errors[0].kind, ErrorKind::DivisionByZero));
    assert_eq!(errors[0].span, Span { start: 0, end: 5 });
    assert_eq!(errors[0].to_string(), "Division by zero");
}

#[test]
fn equality() {
    assert_eq!(test_eval("1 == 1"), Object::Boolean(true));
    assert_eq!(test_eval("1 != 1"), Object::Boolean(false));
    assert_eq!(test_eval("true == true"), Object::Boolean(true));
    assert_eq!(test_eval("\"a\" == \"a\""), Object::Boolean(true));
    assert_eq!(test_eval("\"a\" == \"b\""), Object::Boolean(false));
    assert_eq!(test_eval("null == null"), Object::Boolean(true));
    assert_eq!(test_eval("1 == true"), Object::Boolean(false));
    assert_eq!(test_eval("1 != \"1\""), Object::Boolean(true));
    assert_eq!(test_eval("[1, [2]] == [1, [2]]"), Object::Boolean(true));
    assert_eq!(test_eval("[1, 2] == [1, 3]"), Object::Boolean(false));
    assert_eq!(test_eval("{1: 2, 3: 4} == {3: 4, 1: 2}"), Object::Boolean(true));
    assert_eq!(test_eval("{1: 2} == {1: 3}"), Object::Boolean(false));
}

#[test]
fn comparing_functions_is_an_error() {
    for input in ["fn() {} == fn() {}", "let f = fn() {}; f == f", "fn() {} != 1", "1 == fn() {}"] {
        let errors = eval_errors(input);
        assert_eq!(errors.len(), 1, "{input}");
        assert!(matches!(errors[0].kind, ErrorKind::InvalidOperands { .. }), "{input}");
    }
}

#[test]
fn invalid_operands() {
    let errors = eval_errors("\"x\" + 1");
    assert_eq!(errors.len(), 1);
    assert!(matches!(
        errors[0].kind,
        ErrorKind::InvalidOperands {
            operator: InfixOperator::Add,
            left: ObjectKind::String,
            right: ObjectKind::Integer
        }
    ));
    assert_eq!(errors[0].to_string(), "Cannot use `+` with String and Integer");
    let errors = eval_errors("-true");
    assert!(matches!(
        errors[0].kind,
        ErrorKind::InvalidOperand { operator: PrefixOperator::Neg, operand: ObjectKind::Boolean }
    ));
    assert_eq!(errors[0].to_string(), "Cannot use `-` with Boolean");
    assert!(matches!(eval_errors("\"a\" - \"b\"")[0].kind, ErrorKind::InvalidOperands { .. }));
    assert!(matches!(eval_errors("true < false")[0].kind, ErrorKind::InvalidOperands { .. }));
}

#[test]
fn let_and_identifiers() {
    assert_eq!(test_eval("let x = 5; let y = 10; x + y;"), Object::Integer(15));
    assert_eq!(test_eval("let x = 5; let x = 6; x"), Object::Integer(6));
    assert_eq!(test_eval("let x = 5;"), Object::Null);
    let errors = eval_errors("foo");
    assert!(matches!(&errors[0].kind, ErrorKind::UndefinedVariable(name) if name == "foo"));
    assert_eq!(errors[0].span, Span { start: 0, end: 3 });
    assert_eq!(errors[0].to_string(), "Undefined variable `foo`");
}

#[test]
fn bindings_stay_in_the_environment() {
    let mut env = Environment::default();
    assert_eq!(env.eval_program(parse("let a = 2;").unwrap()).unwrap(), Object::Null);
    assert_eq!(env.eval_program(parse("a * 21").unwrap()).unwrap(), Object::Integer(42));
    assert_eq!(env.find_variable(&"a".to_string()), Some(Object::Integer(2)));
    assert_eq!(env.find_variable(&"b".to_string()), None);
}

#[test]
fn blocks_have_their_own_scope() {
    assert_eq!(test_eval("let x = 1; if (true) { let x = 2; x }"), Object::Integer(2));
    assert_eq!(test_eval("let x = 1; if (true) { let x = 2; } x"), Object::Integer(1));
    let errors = eval_errors("if (true) { let y = 2; } y");
    assert!(matches!(&errors[0].kind, ErrorKind::UndefinedVariable(name) if name == "y"));
}

#[test]
fn functions_and_closures() {
    assert_eq!(test_eval("let id = fn(x) { x }; id(7)"), Object::Integer(7));
    assert_eq!(test_eval("fn(x, y) { x - y }(5, 3)"), Object::Integer(2));
    assert_eq!(
        test_eval("let make = fn(x) { fn(y) { x + y } }; let add5 = make(5); add5(3);"),
        Object::Integer(8)
    );
    assert_eq!(
        test_eval("let fib = fn(n) { if (n < 2) { n } else { fib(n-1) + fib(n-2) } }; fib(10);"),
        Object::Integer(55)
    );
    assert_eq!(test_eval("let f = fn() { 1; 2 }; f()"), Object::Integer(2));
    assert_eq!(test_eval("let f = fn() { }; f()"), Object::Null);
    assert_eq!(test_eval("let f = fn() { 1 }; f").to_string(), "<function f>");
    assert_eq!(test_eval("fn() { 1 }").to_string(), "<function>");
}

#[test]
fn closures_capture_what_is_bound_when_they_are_made() {
    let errors = eval_errors("let f = fn() { later }; let later = 1; f()");
    assert!(matches!(&errors[0].kind, ErrorKind::UndefinedVariable(name) if name == "later"));
}

#[test]
fn return_leaves_the_function() {
    assert_eq!(test_eval("let f = fn() { return 1; 2 }; f()"), Object::Integer(1));
    assert_eq!(
        test_eval("let f = fn(x) { if (x) { return 1; } 2 }; f(true) + f(false) * 10"),
        Object::Integer(21)
    );
    assert_eq!(test_eval("return 5; 6"), Object::Integer(5));
    assert_eq!(test_eval("if (true) { return 3; } 4"), Object::Integer(3));
}

#[test]
fn call_errors() {
    assert!(matches!(eval_errors("1(2)")[0].kind, ErrorKind::NotAFunction));
    assert_eq!(eval_errors("1(2)")[0].to_string(), "Cannot call a non-function");
    let errors = eval_errors("fn(x, y) { x }(1)");
    assert!(matches!(
        errors[0].kind,
        ErrorKind::WrongNumberOfArguments { expected: 2, got: 1 }
    ));
    assert_eq!(errors[0].span, Span { start: 14, end: 17 });
    assert_eq!(errors[0].to_string(), "Expected 2 arguments, got 1");
    assert_eq!(eval_errors("fn(x) { x }()")[0].to_string(), "Expected 1 argument, got 0");
}

#[test]
fn errors_of_sibling_expressions_are_collected() {
    assert_eq!(eval_errors("[a, 1, b]").len(), 2);
    assert_eq!(eval_errors("len(a, b)").len(), 2);
    assert_eq!(eval_errors("fn(x, y) { x }(a, b)").len(), 2);
    assert_eq!(eval_errors("a; 1; b; c").len(), 3);
    assert_eq!(eval_errors("a + b").len(), 1);
    assert_eq!(eval_errors("a; return 1;").len(), 1);
}

#[test]
fn recursion_is_limited() {
    let errors = eval_errors("let f = fn(n) { f(n + 1) }; f(0)");
    assert_eq!(errors.len(), 1);
    assert!(matches!(errors[0].kind, ErrorKind::RecursionLimit));
    assert_eq!(errors[0].to_string(), "Too many nested calls");
    let deep = format!(
        "let f = fn(n) {{ if (n < {}) {{ f(n + 1) }} else {{ n }} }}; f(1)",
        MAX_CALL_DEPTH
    );
    assert_eq!(test_eval(&deep), Object::Integer(MAX_CALL_DEPTH as i64));
}

#[test]
fn arrays_and_indexes() {
    assert_eq!(test_eval("[1, 2 * 2, 3 + 3]"), integers(&[1, 4, 6]));
    assert_eq!(test_eval("[1, 2, 3][0]"), Object::Integer(1));
    assert_eq!(test_eval("[1, 2, 3][2]"), Object::Integer(3));
    assert_eq!(test_eval("let a = [1, 2, 3]; a[1] + a[2]"), Object::Integer(5));
    assert_eq!(test_eval("[[1, 2], [3]][1][0]"), Object::Integer(3));
}

#[test]
fn index_out_of_bounds_is_an_error() {
    let errors = eval_errors("[1,2,3][3]");
    assert!(matches!(errors[0].kind, ErrorKind::OutOfBounds { i: 3, len: 3 }));
    assert_eq!(errors[0].span, Span { start: 8, end: 9 });
    assert_eq!(errors[0].to_string(), "Out of bounds: index was 3 but length was 3");
    let errors = eval_errors("[1,2,3][-1]");
    assert!(matches!(errors[0].kind, ErrorKind::OutOfBounds { i: -1, len: 3 }));
    assert_eq!(errors[0].to_string(), "Out of bounds: index was -1 but length was 3");
    assert!(matches!(eval_errors("[][0]")[0].kind, ErrorKind::OutOfBounds { i: 0, len: 0 }));
}

#[test]
fn index_errors() {
    assert!(matches!(eval_errors("[1][true]")[0].kind, ErrorKind::NotAnIndex));
    assert_eq!(eval_errors("[1][true]")[0].to_string(), "Cannot index an array with a non-integer");
    assert!(matches!(eval_errors("1[0]")[0].kind, ErrorKind::NotACollection));
    assert_eq!(eval_errors("1[0]")[0].to_string(), "Cannot index into a non-collection");
    assert!(matches!(
        eval_errors("{1: 2}[[1]]")[0].kind,
        ErrorKind::InvalidKey(ObjectKind::Array)
    ));
    assert!(matches!(
        eval_errors("{1: 2}[fn() {}]")[0].kind,
        ErrorKind::InvalidKey(ObjectKind::Function)
    ));
    assert!(matches!(
        eval_errors("{1: 2}[{}]")[0].kind,
        ErrorKind::InvalidKey(ObjectKind::Hash)
    ));
}

#[test]
fn maps() {
    assert_eq!(test_eval("{\"a\": 1, \"b\": 2}[\"b\"]"), Object::Integer(2));
    assert_eq!(test_eval("{\"a\": 1}[\"missing\"]"), Object::Null);
    assert_eq!(test_eval("{1: \"one\", true: \"yes\"}[true]"), Object::String("yes".to_string()));
    assert_eq!(test_eval("{1: 10, 1: 20}[1]"), Object::Integer(20));
    assert_eq!(test_eval("len({1: 10, 1: 20})"), Object::Integer(1));
    assert_eq!(test_eval("{1 + 1: 2 * 2}[2]"), Object::Integer(4));
    let errors = eval_errors("{[1]: 2}");
    assert!(matches!(errors[0].kind, ErrorKind::InvalidKey(ObjectKind::Array)));
    assert_eq!(errors[0].span, Span { start: 1, end: 4 });
    assert_eq!(errors[0].to_string(), "Array cannot be used as a map key");
    assert!(matches!(
        eval_errors("{null: 2}")[0].kind,
        ErrorKind::InvalidKey(ObjectKind::Null)
    ));
}

#[test]
fn map_lookup_does_not_depend_on_insertion_order() {
    let orders = [
        "{1: \"a\", true: \"b\", \"k\": \"c\"}",
        "{\"k\": \"c\", 1: \"a\", true: \"b\"}",
        "{true: \"b\", \"k\": \"c\", 1: \"a\"}",
    ];
    for order in orders {
        assert_eq!(test_eval(&format!("{order}[1]")), Object::String("a".to_string()));
        assert_eq!(test_eval(&format!("{order}[true]")), Object::String("b".to_string()));
        assert_eq!(test_eval(&format!("{order}[\"k\"]")), Object::String("c".to_string()));
        assert_eq!(test_eval(&format!("{order}[2]")), Object::Null);
    }
}

#[test]
fn strings() {
    assert_eq!(test_eval("\"foo\" + \"bar\""), Object::String("foobar".to_string()));
    assert_eq!(test_eval("\"\" + \"\""), Object::String(String::new()));
    assert_eq!(test_eval("len(\"héllo\")"), Object::Integer(6));
}

#[test]
fn len_of_empty_values() {
    assert_eq!(test_eval("len(\"\")"), Object::Integer(0));
    assert_eq!(test_eval("len([])"), Object::Integer(0));
    assert_eq!(test_eval("len({})"), Object::Integer(0));
}

#[test]
fn intrinsics() {
    assert_eq!(test_eval("len([1, 2, 3])"), Object::Integer(3));
    assert_eq!(test_eval("len({1: 2, 3: 4})"), Object::Integer(2));
    assert_eq!(test_eval("first([1, 2, 3])"), Object::Integer(1));
    assert_eq!(test_eval("first([])"), Object::Null);
    assert_eq!(test_eval("last([1, 2, 3])"), Object::Integer(3));
    assert_eq!(test_eval("last([])"), Object::Null);
    assert_eq!(test_eval("rest([1, 2, 3])"), integers(&[2, 3]));
    assert_eq!(test_eval("rest([1])"), integers(&[]));
    assert_eq!(test_eval("rest([])"), integers(&[]));
    assert_eq!(test_eval("push([1], 2)"), integers(&[1, 2]));
    assert_eq!(test_eval("push([], 2)"), integers(&[2]));
}

#[test]
fn push_leaves_its_argument_alone() {
    assert_eq!(test_eval("let a = [1,2,3]; push(a, 4); a;"), integers(&[1, 2, 3]));
    assert_eq!(test_eval("let a = [1,2,3]; let b = push(a, 4); b;"), integers(&[1, 2, 3, 4]));
    assert_eq!(test_eval("let a = [1,2,3]; rest(a); first(a); last(a); len(a); a;"), integers(&[1, 2, 3]));
}

#[test]
fn intrinsic_errors() {
    let errors = eval_errors("len(1)");
    assert!(matches!(errors[0].kind, ErrorKind::BadTypeForLen(ObjectKind::Integer)));
    assert_eq!(errors[0].span, Span { start: 4, end: 5 });
    assert_eq!(errors[0].to_string(), "Cannot get length of Integer");
    let errors = eval_errors("len()");
    assert!(matches!(errors[0].kind, ErrorKind::WrongNumberOfArguments { expected: 1, got: 0 }));
    assert_eq!(errors[0].span, Span { start: 3, end: 5 });
    assert!(matches!(eval_errors("first(1)")[0].kind, ErrorKind::NotAnArray));
    assert!(matches!(eval_errors("last(\"a\")")[0].kind, ErrorKind::NotAnArray));
    assert!(matches!(eval_errors("rest({})")[0].kind, ErrorKind::NotAnArray));
    assert!(matches!(eval_errors("push(1, 2)")[0].kind, ErrorKind::NotAnArray));
    assert_eq!(eval_errors("push(1, 2)")[0].to_string(), "Expected an array");
    assert!(matches!(
        eval_errors("push([1])")[0].kind,
        ErrorKind::WrongNumberOfArguments { expected: 2, got: 1 }
    ));
    assert!(matches!(
        eval_errors("first()")[0].kind,
        ErrorKind::WrongNumberOfArguments { expected: 1, got: 0 }
    ));
}

#[test]
fn intrinsics_called_directly() {
    let span = Span { start: 0, end: 2 };
    let args = vec![integers(&[1, 2]), Object::Integer(3)];
    assert_eq!(monkey::intrinsic::push(&args, span).unwrap(), integers(&[1, 2, 3]));
    assert_eq!(args[0], integers(&[1, 2]));
    let one = vec![integers(&[4, 5, 6])];
    assert_eq!(monkey::intrinsic::len(&one, span).unwrap(), Object::Integer(3));
    assert_eq!(monkey::intrinsic::first(&one, span).unwrap(), Object::Integer(4));
    assert_eq!(monkey::intrinsic::last(&one, span).unwrap(), Object::Integer(6));
    assert_eq!(monkey::intrinsic::rest(&one, span).unwrap(), integers(&[5, 6]));
    assert_eq!(monkey::intrinsic::print(&args), "[1, 2] 3");
    assert_eq!(lookup_intrinsic("len"), Some(Intrinsic::Len));
    assert_eq!(lookup_intrinsic("print"), Some(Intrinsic::Print));
    assert_eq!(lookup_intrinsic("first"), Some(Intrinsic::First));
    assert_eq!(lookup_intrinsic("last"), Some(Intrinsic::Last));
    assert_eq!(lookup_intrinsic("rest"), Some(Intrinsic::Rest));
    assert_eq!(lookup_intrinsic("push"), Some(Intrinsic::Push));
    assert_eq!(lookup_intrinsic("puts"), None);
}

#[test]
fn print_puts_lines_into_the_output() {
    let mut env = Environment::default();
    let result = env
        .eval_program(parse("print(1, \"two\", [3, true], null); print(); print({1: 2}); 7").unwrap())
        .unwrap();
    assert_eq!(result, Object::Integer(7));
    assert_eq!(env.output, vec!["1 two [3, true] null".to_string(), String::new(), "{1: 2}".to_string()]);
    assert_eq!(test_eval("print(1)"), Object::Null);
}

#[test]
fn display_of_values() {
    assert_eq!(test_eval("-12").to_string(), "-12");
    assert_eq!(test_eval("true").to_string(), "true");
    assert_eq!(test_eval("null").to_string(), "null");
    assert_eq!(test_eval("\"raw\"").to_string(), "raw");
    assert_eq!(test_eval("[1, \"a\", [null]]").to_string(), "[1, a, [null]]");
    assert_eq!(test_eval("[]").to_string(), "[]");
    assert_eq!(test_eval("{1: 2, \"k\": false}").to_string(), "{1: 2, k: false}");
    assert_eq!(test_eval("{}").to_string(), "{}");
    assert_eq!(Object::Return(Box::new(Object::Integer(1))).to_string(), "null");
    assert_eq!(ObjectKind::Hash.to_string(), "Map");
    assert_eq!(Object::Integer(1).kind(), ObjectKind::Integer);
}

#[test]
fn object_map_keeps_one_entry_per_key() {
    let mut map = ObjectMap::new();
    map.insert(Object::Integer(1), Object::Integer(10));
    map.insert(Object::String("a".to_string()), Object::Integer(20));
    map.insert(Object::Integer(1), Object::Integer(30));
    assert_eq!(map.len(), 2);
    assert_eq!(map.get(&Object::Integer(1)), Some(&Object::Integer(30)));
    assert_eq!(map.get(&Object::String("a".to_string())), Some(&Object::Integer(20)));
    assert_eq!(map.get(&Object::Boolean(true)), None);
    assert_eq!(map.find(&Object::Integer(2)), 2);
}

fn reference(tree: &Tree) -> i64 {
    match tree {
        Tree::Leaf(value) => *value,
        Tree::Add(left, right) => reference(left).wrapping_add(reference(right)),
        Tree::Sub(left, right) => reference(left).wrapping_sub(reference(right)),
        Tree::Mul(left, right) => reference(left).wrapping_mul(reference(right)),
    }
}

enum Tree {
    Leaf(i64),
    Add(Box<Tree>, Box<Tree>),
    Sub(Box<Tree>, Box<Tree>),
    Mul(Box<Tree>, Box<Tree>),
}

fn source_of(tree: &Tree) -> String {
    match tree {
        Tree::Leaf(value) => format!("{value}"),
        Tree::Add(left, right) => format!("({} + {})", source_of(left), source_of(right)),
        Tree::Sub(left, right) => format!("({} - {})", source_of(left), source_of(right)),
        Tree::Mul(left, right) => format!("({} * {})", source_of(left), source_of(right)),
    }
}

fn grow(seed: &mut u64, depth: u32) -> Tree {
    *seed = seed.wrapping_mul(6364136223846793005).wrapping_add(1442695040888963407);
    let pick = (*seed >> 33) % 4;
    if depth == 0 || pick == 0 {
        return Tree::Leaf(((*seed >> 40) % 2000000000000) as i64);
    }
    let left = Box::new(grow(seed, depth - 1));
    let right = Box::new(grow(seed, depth - 1));
    match pick {
        1 => Tree::Add(left, right),
        2 => Tree::Sub(left, right),
        _ => Tree::Mul(left, right),
    }
}

#[test]
fn integer_expressions_agree_with_a_reference() {
    let mut seed = 42u64;
    for _ in 0..200 {
        let tree = grow(&mut seed, 5);
        assert_eq!(test_eval(&source_of(&tree)), Object::Integer(reference(&tree)));
    }
}

#[test]
fn messages_of_errors_that_no_program_here_can_cause() {
    assert_eq!(ErrorKind::TooLongForLen.to_string(), "Length greater than i64::MAX");
    assert_eq!(
        ErrorKind::InvalidKey(ObjectKind::Hash).to_string(),
        "Map cannot be used as a map key"
    );
    assert_eq!(monkey::parser::Expected::Statement.to_string(), "statement");
    assert_eq!(
        monkey::parser::ErrorKind::Unexpected {
            expected: monkey::parser::Expected::Statement,
            found: None
        }
        .to_string(),
        "Unexpected token. Expected statement, found end of input."
    );
}
