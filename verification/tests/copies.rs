use monkey::code::SpannedObject;
use monkey::eval::ErrorKind;
use monkey::object::Environment;
use monkey::object::Object;
use monkey::object::ObjectMap;
use monkey::parser::parse;
use monkey::token::Span;

#[test]
fn a_copy_of_a_tree_shows_the_same() {
    let program = parse("let f = fn(a) { if (a[0] < 1) { {1: \"x\"} } else { -f([a[0] - 1], null) } };")
        .unwrap();
    let copy = program.clone();
    assert_eq!(copy.to_string(), program.to_string());
    assert_eq!(copy.statements[0].clone().to_string(), program.statements[0].to_string());
    assert_eq!(copy.span(), program.span());
}

#[test]
fn a_copy_of_an_environment_has_the_same_bindings() {
    let mut env = Environment::default();
    env.eval_program(parse("let a = [1, 2]; let f = fn(x) { x + a[0] }; print(a);").unwrap()).unwrap();
    let mut copy = env.clone();
    assert_eq!(copy.output, env.output);
    assert_eq!(copy.eval_program(parse("f(41)").unwrap()).unwrap(), Object::Integer(42));
    copy.eval_program(parse("let b = 1;").unwrap()).unwrap();
    assert!(env.find_variable(&"b".to_string()).is_none());
    assert_eq!(env.snapshot().find_variable(&"a".to_string()), env.find_variable(&"a".to_string()));
}

#[test]
fn maps_are_equal_whatever_their_order() {
    let mut one = ObjectMap::default();
    one.insert(Object::Integer(1), Object::Boolean(true));
    one.insert(Object::String("k".to_string()), Object::Null);
    let mut two = ObjectMap::new();
    two.insert(Object::String("k".to_string()), Object::Null);
    two.insert(Object::Integer(1), Object::Boolean(true));
    assert!(one == two);
    assert!(one.clone() == one);
    two.insert(Object::Integer(1), Object::Boolean(false));
    assert!(one != two);
}

#[test]
fn spanned_objects_are_compared_by_their_objects() {
    let one = SpannedObject { object: Object::Integer(1), span: Span { start: 0, end: 1 } };
    let other = SpannedObject { object: Object::Integer(1), span: Span { start: 5, end: 6 } };
    assert!(one == other);
    assert!(one.clone() == one);
    let different = SpannedObject { object: Object::Integer(2), span: Span { start: 0, end: 1 } };
    assert!(one != different);
}

#[test]
fn errors_can_be_copied() {
    let errors = Environment::default().eval_program(parse("missing").unwrap()).unwrap_err();
    let copy = errors[0].clone();
    assert_eq!(copy.span, errors[0].span);
    assert!(matches!(&copy.kind, ErrorKind::UndefinedVariable(name) if name == "missing"));
    let machine = monkey::vm::Error::Eval(copy).clone();
    assert_eq!(machine.to_string(), "Undefined variable `missing`");
}
