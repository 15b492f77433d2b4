use crate::ast::BlockStatement;
use crate::ast::BlockView;
use crate::ast::entries_view;
use crate::ast::Expression;
use crate::ast::expressions_view;
use crate::ast::ExpressionView;
use crate::ast::Identifier;
use crate::ast::identifiers_view;
use crate::ast::IdentifierView;
use crate::ast::InfixOperator;
use crate::ast::lemma_block_statements;
use crate::ast::lemma_model_sequences;
use crate::ast::PrefixOperator;
use crate::ast::Program;
use crate::ast::ProgramView;
use crate::ast::Statement;
use crate::ast::statements_view;
use crate::ast::StatementView;
use crate::intrinsic::intrinsic_named;
use crate::intrinsic::intrinsic_output;
use crate::intrinsic::intrinsic_result;
use crate::intrinsic::lookup_intrinsic;
use crate::object::bind;
use crate::object::binding_of;
use crate::object::bindings_view;
use crate::object::clone_bindings;
pub use crate::object::Environment;
use crate::object::EnvironmentView;
use crate::object::equal;
use crate::object::find_binding;
use crate::object::Function;
use crate::object::FunctionView;
use crate::object::insert_binding;
use crate::object::lemma_binding_index;
use crate::object::lemma_environment_model;
use crate::object::lemma_object_model;
use crate::object::map_get;
use crate::object::map_insert;
use crate::object::Object;
use crate::object::ObjectKind;
use crate::object::ObjectMap;
use crate::object::objects_view;
use crate::object::ObjectView;
use crate::object::share;
use crate::object::strings_view;
use crate::token::Span;
use std::rc::Rc;
use vstd::prelude::*;
use vstd::string::StringExecFns;

verus! {

/// How many calls of closures may be in progress at once.
pub const MAX_CALL_DEPTH: usize = 200;

/// What went wrong while a program ran.
#[derive(Debug)]
#[allow(inconsistent_fields)]
pub enum ErrorKind {
    InvalidOperands { operator: InfixOperator, left: ObjectKind, right: ObjectKind },
    InvalidOperand { operator: PrefixOperator, operand: ObjectKind },
    UndefinedVariable(String),
    NotAFunction,
    WrongNumberOfArguments { expected: usize, got: usize },
    NotACollection,
    NotAnIndex,
    OutOfBounds { i: i64, len: usize },
    InvalidKey(ObjectKind),
    DivisionByZero,
    TooLongForLen,
    BadTypeForLen(ObjectKind),
    NotAnArray,
    /// More than [`MAX_CALL_DEPTH`] calls were in progress at once.
    RecursionLimit,
}

/// The mathematical value of an [`ErrorKind`].
#[allow(inconsistent_fields)]
pub enum ErrorKindView {
    InvalidOperands { operator: InfixOperator, left: ObjectKind, right: ObjectKind },
    InvalidOperand { operator: PrefixOperator, operand: ObjectKind },
    UndefinedVariable(Seq<char>),
    NotAFunction,
    WrongNumberOfArguments { expected: usize, got: usize },
    NotACollection,
    NotAnIndex,
    OutOfBounds { i: i64, len: usize },
    InvalidKey(ObjectKind),
    DivisionByZero,
    TooLongForLen,
    BadTypeForLen(ObjectKind),
    NotAnArray,
    RecursionLimit,
}

impl View for ErrorKind {
    type V = ErrorKindView;

    open spec fn view(&self) -> ErrorKindView {
        match self {
            ErrorKind::InvalidOperands { operator, left, right } => ErrorKindView::InvalidOperands {
                operator: *operator,
                left: *left,
                right: *right,
            },
            ErrorKind::InvalidOperand { operator, operand } => ErrorKindView::InvalidOperand {
                operator: *operator,
                operand: *operand,
            },
            ErrorKind::UndefinedVariable(name) => ErrorKindView::UndefinedVariable(name@),
            ErrorKind::NotAFunction => ErrorKindView::NotAFunction,
            ErrorKind::WrongNumberOfArguments {
                expected,
                got,
            } => ErrorKindView::WrongNumberOfArguments { expected: *expected, got: *got },
            ErrorKind::NotACollection => ErrorKindView::NotACollection,
            ErrorKind::NotAnIndex => ErrorKindView::NotAnIndex,
            ErrorKind::OutOfBounds { i, len } => ErrorKindView::OutOfBounds { i: *i, len: *len },
            ErrorKind::InvalidKey(kind) => ErrorKindView::InvalidKey(*kind),
            ErrorKind::DivisionByZero => ErrorKindView::DivisionByZero,
            ErrorKind::TooLongForLen => ErrorKindView::TooLongForLen,
            ErrorKind::BadTypeForLen(kind) => ErrorKindView::BadTypeForLen(*kind),
            ErrorKind::NotAnArray => ErrorKindView::NotAnArray,
            ErrorKind::RecursionLimit => ErrorKindView::RecursionLimit,
        }
    }
}

/// An error of a running program, with the source range it is about.
#[derive(Debug)]
pub struct Error {
    pub span: Span,
    pub kind: ErrorKind,
}

/// The mathematical value of an [`Error`].
pub struct ErrorView {
    pub span: Span,
    pub kind: ErrorKindView,
}

impl View for Error {
    type V = ErrorView;

    open spec fn view(&self) -> ErrorView {
        ErrorView { span: self.span, kind: self.kind@ }
    }
}

/// The values of a sequence of errors.
pub open spec fn errors_view(errors: Seq<Error>) -> Seq<ErrorView> {
    Seq::new(errors.len(), |i: int| errors[i]@)
}

/// The value of what an evaluation returns.
pub open spec fn outcome_view(outcome: Result<Object, Vec<Error>>) -> Result<
    ObjectView,
    Seq<ErrorView>,
> {
    match outcome {
        Ok(value) => Ok(value@),
        Err(errors) => Err(errors_view(errors@)),
    }
}

/// The quotient of `left` by `right`, rounded towards zero. Where it does not
/// fit, which is the case of the least integer divided by -1, it wraps
/// around to the least integer.
pub open spec fn quotient(left: i64, right: i64) -> i64
    recommends
        right != 0,
{
    match left.checked_div(right) {
        Some(q) => q,
        None => left,
    }
}

/// What a binary operator makes of two values. Integer arithmetic wraps
/// around on overflow.
pub open spec fn infix_result(operator: InfixOperator, left: ObjectView, right: ObjectView) -> Result<
    ObjectView,
    ErrorKindView,
> {
    let invalid = Err(
        ErrorKindView::InvalidOperands { operator, left: left.kind(), right: right.kind() },
    );
    match operator {
        InfixOperator::Eq => if left.is_function() || right.is_function() {
            invalid
        } else {
            Ok(ObjectView::Boolean(equal(left, right)))
        },
        InfixOperator::Neq => if left.is_function() || right.is_function() {
            invalid
        } else {
            Ok(ObjectView::Boolean(!equal(left, right)))
        },
        InfixOperator::Add => match (left, right) {
            (ObjectView::Integer(x), ObjectView::Integer(y)) => Ok(
                ObjectView::Integer(x.wrapping_add(y)),
            ),
            (ObjectView::String(x), ObjectView::String(y)) => Ok(ObjectView::String(x + y)),
            _ => invalid,
        },
        InfixOperator::Sub => match (left, right) {
            (ObjectView::Integer(x), ObjectView::Integer(y)) => Ok(
                ObjectView::Integer(x.wrapping_sub(y)),
            ),
            _ => invalid,
        },
        InfixOperator::Mul => match (left, right) {
            (ObjectView::Integer(x), ObjectView::Integer(y)) => Ok(
                ObjectView::Integer(x.wrapping_mul(y)),
            ),
            _ => invalid,
        },
        InfixOperator::Div => match (left, right) {
            (ObjectView::Integer(x), ObjectView::Integer(y)) => if y == 0 {
                Err(ErrorKindView::DivisionByZero)
            } else {
                Ok(ObjectView::Integer(quotient(x, y)))
            },
            _ => invalid,
        },
        InfixOperator::LT => match (left, right) {
            (ObjectView::Integer(x), ObjectView::Integer(y)) => Ok(ObjectView::Boolean(x < y)),
            _ => invalid,
        },
        InfixOperator::GT => match (left, right) {
            (ObjectView::Integer(x), ObjectView::Integer(y)) => Ok(ObjectView::Boolean(x > y)),
            _ => invalid,
        },
    }
}

/// What a unary operator makes of a value. Negation wraps around on overflow.
pub open spec fn prefix_result(operator: PrefixOperator, operand: ObjectView) -> Result<
    ObjectView,
    ErrorKindView,
> {
    match operator {
        PrefixOperator::Not => Ok(ObjectView::Boolean(!operand.truthy())),
        PrefixOperator::Neg => match operand {
            ObjectView::Integer(x) => Ok(ObjectView::Integer(0i64.wrapping_sub(x))),
            _ => Err(ErrorKindView::InvalidOperand { operator, operand: operand.kind() }),
        },
    }
}

/// The value of what an operator returns.
pub open spec fn applied_view(outcome: Result<Object, ErrorKind>) -> Result<
    ObjectView,
    ErrorKindView,
> {
    match outcome {
        Ok(value) => Ok(value@),
        Err(kind) => Err(kind@),
    }
}

/// Applies a binary operator to two values.
pub fn apply_infix(operator: InfixOperator, left: Object, right: Object) -> (outcome: Result<
    Object,
    ErrorKind,
>)
    ensures
        applied_view(outcome) == infix_result(operator, left@, right@),
{
    let left_kind = left.kind();
    let right_kind = right.kind();
    let invalid = ErrorKind::InvalidOperands { operator, left: left_kind, right: right_kind };
    match operator {
        InfixOperator::Eq => {
            if left.is_function() || right.is_function() {
                Err(invalid)
            } else {
                Ok(Object::Boolean(left.equals(&right)))
            }
        },
        InfixOperator::Neq => {
            if left.is_function() || right.is_function() {
                Err(invalid)
            } else {
                Ok(Object::Boolean(!left.equals(&right)))
            }
        },
        InfixOperator::Add => match (left, right) {
            (Object::Integer(x), Object::Integer(y)) => Ok(Object::Integer(x.wrapping_add(y))),
            (Object::String(x), Object::String(y)) => Ok(Object::String(x.concat(y.as_str()))),
            _ => Err(invalid),
        },
        InfixOperator::Sub => match (left, right) {
            (Object::Integer(x), Object::Integer(y)) => Ok(Object::Integer(x.wrapping_sub(y))),
            _ => Err(invalid),
        },
        InfixOperator::Mul => match (left, right) {
            (Object::Integer(x), Object::Integer(y)) => Ok(Object::Integer(x.wrapping_mul(y))),
            _ => Err(invalid),
        },
        InfixOperator::Div => match (left, right) {
            (Object::Integer(x), Object::Integer(y)) => {
                if y == 0 {
                    Err(ErrorKind::DivisionByZero)
                } else {
                    match x.checked_div(y) {
                        Some(q) => Ok(Object::Integer(q)),
                        None => Ok(Object::Integer(x)),
                    }
                }
            },
            _ => Err(invalid),
        },
        InfixOperator::LT => match (left, right) {
            (Object::Integer(x), Object::Integer(y)) => Ok(Object::Boolean(x < y)),
            _ => Err(invalid),
        },
        InfixOperator::GT => match (left, right) {
            (Object::Integer(x), Object::Integer(y)) => Ok(Object::Boolean(x > y)),
            _ => Err(invalid),
        },
    }
}

/// Applies a unary operator to a value.
pub fn apply_prefix(operator: PrefixOperator, operand: Object) -> (outcome: Result<
    Object,
    ErrorKind,
>)
    ensures
        applied_view(outcome) == prefix_result(operator, operand@),
{
    match operator {
        PrefixOperator::Not => Ok(Object::Boolean(!operand.truthy())),
        PrefixOperator::Neg => match operand {
            Object::Integer(x) => Ok(Object::Integer(0i64.wrapping_sub(x))),
            other => Err(ErrorKind::InvalidOperand { operator, operand: other.kind() }),
        },
    }
}

/// Division by zero is an error, and zero divided by any other integer is
/// zero.
pub proof fn law_division(left: i64, right: i64)
    ensures
        infix_result(InfixOperator::Div, ObjectView::Integer(left), ObjectView::Integer(0)) == Err::<
            ObjectView,
            ErrorKindView,
        >(ErrorKindView::DivisionByZero),
        right != 0 ==> infix_result(
            InfixOperator::Div,
            ObjectView::Integer(0),
            ObjectView::Integer(right),
        ) == Ok::<ObjectView, ErrorKindView>(ObjectView::Integer(0)),
{
}

/// What the evaluation of an expression comes to: its value or its errors,
/// and all lines printed so far.
pub struct Evaluated {
    pub result: Result<ObjectView, Seq<ErrorView>>,
    pub printed: Seq<Seq<char>>,
}

/// What the evaluation of a list of expressions comes to: the values of those
/// that have one, the errors of the others, and all lines printed so far.
pub struct EvaluatedList {
    pub values: Seq<ObjectView>,
    pub errors: Seq<ErrorView>,
    pub printed: Seq<Seq<char>>,
}

/// What the execution of statements comes to: value or errors, the
/// environment as the statements leave it, and all lines printed so far.
pub struct Executed {
    pub result: Result<ObjectView, Seq<ErrorView>>,
    pub env: EnvironmentView,
    pub printed: Seq<Seq<char>>,
}

/// One error as the outcome of an evaluation.
pub open spec fn failed(span: Span, kind: ErrorKindView, printed: Seq<Seq<char>>) -> Evaluated {
    Evaluated { result: Err(seq![ErrorView { span, kind }]), printed }
}

/// The value bound to `name` in the innermost scope that binds it.
pub open spec fn lookup(env: EnvironmentView, name: Seq<char>) -> Option<ObjectView>
    decreases env,
{
    match binding_of(env.values, name) {
        Some(value) => Some(value),
        None => match env.outer {
            Some(outer) => lookup(*outer, name),
            None => None,
        },
    }
}

/// A new innermost scope without bindings, inside `env`.
pub open spec fn child_of(env: EnvironmentView) -> EnvironmentView {
    EnvironmentView { outer: Some(Box::new(env)), values: Seq::empty() }
}

/// The bindings after the parameters from `from` on have been bound to the
/// arguments at their positions.
pub open spec fn bind_parameters(
    values: Seq<(Seq<char>, ObjectView)>,
    parameters: Seq<IdentifierView>,
    args: Seq<ObjectView>,
    from: int,
) -> Seq<(Seq<char>, ObjectView)>
    decreases parameters.len() - from,
{
    if 0 <= from < parameters.len() && from < args.len() {
        bind_parameters(bind(values, parameters[from].value, args[from]), parameters, args, from + 1)
    } else {
        values
    }
}

/// The environment in which the body of a closure runs when it is called
/// with `args`: that of the closure, with the parameters bound to the
/// arguments and then the closure's own name, if it has one, to the closure.
pub open spec fn call_environment(function: FunctionView, args: Seq<ObjectView>) -> EnvironmentView {
    let bound = bind_parameters(function.env.values, function.parameters, args, 0);
    EnvironmentView {
        outer: function.env.outer,
        values: match function.this {
            Some(name) => bind(bound, name.value, ObjectView::Function(Box::new(function))),
            None => bound,
        },
    }
}

/// The value that a function or a program hands back: what its last
/// statement came to, or what a `return` carried.
pub open spec fn unwrap_return(result: Result<ObjectView, Seq<ErrorView>>) -> Result<
    ObjectView,
    Seq<ErrorView>,
> {
    match result {
        Ok(ObjectView::Return(value)) => Ok(*value),
        other => other,
    }
}

/// The element of `items` at `index`.
pub open spec fn array_element(items: Seq<ObjectView>, index: ObjectView) -> Result<
    ObjectView,
    ErrorKindView,
> {
    match index {
        ObjectView::Integer(i) => if i < 0 || i >= items.len() {
            Err(ErrorKindView::OutOfBounds { i, len: items.len() as usize })
        } else {
            Ok(items[i as int])
        },
        _ => Err(ErrorKindView::NotAnIndex),
    }
}

/// The value stored under `key` in a map, `null` if there is none.
pub open spec fn map_element(entries: Seq<(ObjectView, ObjectView)>, key: ObjectView) -> Result<
    ObjectView,
    ErrorKindView,
> {
    if !key.is_key() {
        Err(ErrorKindView::InvalidKey(key.kind()))
    } else {
        match map_get(entries, key) {
            Some(value) => Ok(value),
            None => Ok(ObjectView::Null),
        }
    }
}

/// The value of `expr` in `env`, with `depth` further nested calls allowed.
/// `hint` is the name that a `let` is about to bind the value to.
pub open spec fn eval_expr(
    env: EnvironmentView,
    expr: ExpressionView,
    hint: Option<IdentifierView>,
    depth: nat,
    printed: Seq<Seq<char>>,
) -> Evaluated
    decreases depth, expr, 0int,
{
    match expr {
        ExpressionView::Integer { value, .. } => Evaluated {
            result: Ok(ObjectView::Integer(value)),
            printed,
        },
        ExpressionView::Boolean { value, .. } => Evaluated {
            result: Ok(ObjectView::Boolean(value)),
            printed,
        },
        ExpressionView::String { value, .. } => Evaluated {
            result: Ok(ObjectView::String(value)),
            printed,
        },
        ExpressionView::Null { .. } => Evaluated { result: Ok(ObjectView::Null), printed },
        ExpressionView::Identifier(name) => match lookup(env, name.value) {
            Some(value) => Evaluated { result: Ok(value), printed },
            None => failed(name.token.span, ErrorKindView::UndefinedVariable(name.value), printed),
        },
        ExpressionView::Prefix { operator, operand, .. } => {
            let inner = eval_expr(env, *operand, None, depth, printed);
            match inner.result {
                Err(_) => inner,
                Ok(value) => match prefix_result(operator, value) {
                    Ok(result) => Evaluated { result: Ok(result), printed: inner.printed },
                    Err(kind) => failed(expr.span(), kind, inner.printed),
                },
            }
        },
        ExpressionView::Infix { left, operator, right } => {
            let first = eval_expr(env, *left, None, depth, printed);
            match first.result {
                Err(_) => first,
                Ok(left_value) => {
                    let second = eval_expr(env, *right, None, depth, first.printed);
                    match second.result {
                        Err(_) => second,
                        Ok(right_value) => match infix_result(operator, left_value, right_value) {
                            Ok(result) => Evaluated { result: Ok(result), printed: second.printed },
                            Err(kind) => failed(expr.span(), kind, second.printed),
                        },
                    }
                },
            }
        },
        ExpressionView::If { condition, consequence, alternative, .. } => {
            let test = eval_expr(env, *condition, None, depth, printed);
            match test.result {
                Err(_) => test,
                Ok(value) => if value.truthy() {
                    eval_block(env, consequence, depth, test.printed)
                } else {
                    match alternative {
                        Some(block) => eval_block(env, block, depth, test.printed),
                        None => Evaluated { result: Ok(ObjectView::Null), printed: test.printed },
                    }
                },
            }
        },
        ExpressionView::Function { parameters, body, .. } => Evaluated {
            result: Ok(
                ObjectView::Function(
                    Box::new(FunctionView { this: hint, parameters, body, env: child_of(env) }),
                ),
            ),
            printed,
        },
        ExpressionView::Call { function, open_span, arguments, close_span } => {
            let args_span = Span { start: open_span.start, end: close_span.end };
            let builtin = match *function {
                ExpressionView::Identifier(name) => intrinsic_named(name.value),
                _ => None,
            };
            match builtin {
                Some(which) => {
                    let args = eval_list(
                        env,
                        arguments,
                        0,
                        Seq::empty(),
                        Seq::empty(),
                        depth,
                        printed,
                    );
                    if args.errors.len() > 0 {
                        Evaluated { result: Err(args.errors), printed: args.printed }
                    } else {
                        Evaluated {
                            result: match intrinsic_result(which, args.values, args_span) {
                                Ok(value) => Ok(value),
                                Err(error) => Err(seq![error]),
                            },
                            printed: args.printed + intrinsic_output(which, args.values),
                        }
                    }
                },
                None => {
                    let callee = eval_expr(env, *function, None, depth, printed);
                    match callee.result {
                        Err(_) => callee,
                        Ok(ObjectView::Function(closure)) => {
                            if arguments.len() != closure.parameters.len() {
                                failed(
                                    args_span,
                                    ErrorKindView::WrongNumberOfArguments {
                                        expected: closure.parameters.len() as usize,
                                        got: arguments.len() as usize,
                                    },
                                    callee.printed,
                                )
                            } else {
                                let args = eval_list(
                                    env,
                                    arguments,
                                    0,
                                    Seq::empty(),
                                    Seq::empty(),
                                    depth,
                                    callee.printed,
                                );
                                if args.errors.len() > 0 {
                                    Evaluated { result: Err(args.errors), printed: args.printed }
                                } else if depth == 0 {
                                    failed(expr.span(), ErrorKindView::RecursionLimit, args.printed)
                                } else {
                                    let body = eval_block(
                                        call_environment(*closure, args.values),
                                        closure.body,
                                        (depth - 1) as nat,
                                        args.printed,
                                    );
                                    Evaluated {
                                        result: unwrap_return(body.result),
                                        printed: body.printed,
                                    }
                                }
                            }
                        },
                        Ok(_) => failed(expr.span(), ErrorKindView::NotAFunction, callee.printed),
                    }
                },
            }
        },
        ExpressionView::Array { elements, .. } => {
            let items = eval_list(env, elements, 0, Seq::empty(), Seq::empty(), depth, printed);
            if items.errors.len() > 0 {
                Evaluated { result: Err(items.errors), printed: items.printed }
            } else {
                Evaluated { result: Ok(ObjectView::Array(items.values)), printed: items.printed }
            }
        },
        ExpressionView::Index { collection, index, .. } => {
            let target = eval_expr(env, *collection, None, depth, printed);
            match target.result {
                Err(_) => target,
                Ok(ObjectView::Array(items)) => {
                    let at = eval_expr(env, *index, None, depth, target.printed);
                    match at.result {
                        Err(_) => at,
                        Ok(position) => match array_element(items, position) {
                            Ok(value) => Evaluated { result: Ok(value), printed: at.printed },
                            Err(kind) => failed(index.span(), kind, at.printed),
                        },
                    }
                },
                Ok(ObjectView::Hash(entries)) => {
                    let at = eval_expr(env, *index, None, depth, target.printed);
                    match at.result {
                        Err(_) => at,
                        Ok(key) => match map_element(entries, key) {
                            Ok(value) => Evaluated { result: Ok(value), printed: at.printed },
                            Err(kind) => failed(expr.span(), kind, at.printed),
                        },
                    }
                },
                Ok(_) => failed(expr.span(), ErrorKindView::NotACollection, target.printed),
            }
        },
        ExpressionView::Hash { entries, .. } => eval_entries(
            env,
            entries,
            0,
            Seq::empty(),
            depth,
            printed,
        ),
    }
}

/// The values and the errors of the expressions `items[from..]`, evaluated
/// from left to right, after those in `values` and `errors`.
pub open spec fn eval_list(
    env: EnvironmentView,
    items: Seq<ExpressionView>,
    from: int,
    values: Seq<ObjectView>,
    errors: Seq<ErrorView>,
    depth: nat,
    printed: Seq<Seq<char>>,
) -> EvaluatedList
    decreases depth, items, items.len() - from,
{
    if 0 <= from < items.len() {
        let item = eval_expr(env, items[from], None, depth, printed);
        match item.result {
            Ok(value) => eval_list(
                env,
                items,
                from + 1,
                values.push(value),
                errors,
                depth,
                item.printed,
            ),
            Err(more) => eval_list(
                env,
                items,
                from + 1,
                values,
                errors + more,
                depth,
                item.printed,
            ),
        }
    } else {
        EvaluatedList { values, errors, printed }
    }
}

/// The map made of `done` and the entries `entries[from..]`, each evaluated
/// key first, from left to right. The first error ends the evaluation.
pub open spec fn eval_entries(
    env: EnvironmentView,
    entries: Seq<(ExpressionView, ExpressionView)>,
    from: int,
    done: Seq<(ObjectView, ObjectView)>,
    depth: nat,
    printed: Seq<Seq<char>>,
) -> Evaluated
    decreases depth, entries, entries.len() - from,
{
    if 0 <= from < entries.len() {
        let key = eval_expr(env, entries[from].0, None, depth, printed);
        match key.result {
            Err(_) => key,
            Ok(key_value) => if !key_value.is_key() {
                failed(
                    entries[from].0.span(),
                    ErrorKindView::InvalidKey(key_value.kind()),
                    key.printed,
                )
            } else {
                let value = eval_expr(env, entries[from].1, None, depth, key.printed);
                match value.result {
                    Err(_) => value,
                    Ok(stored) => eval_entries(
                        env,
                        entries,
                        from + 1,
                        map_insert(done, key_value, stored),
                        depth,
                        value.printed,
                    ),
                }
            },
        }
    } else {
        Evaluated { result: Ok(ObjectView::Hash(done)), printed }
    }
}

/// The value of a block: that of its statements, run in a new scope of their
/// own. A value that a `return` carries comes out still wrapped.
pub open spec fn eval_block(
    env: EnvironmentView,
    block: BlockView,
    depth: nat,
    printed: Seq<Seq<char>>,
) -> Evaluated
    decreases depth, block, 0int,
{
    let run = exec_statements(
        child_of(env),
        block.statements,
        0,
        Seq::empty(),
        ObjectView::Null,
        depth,
        printed,
    );
    Evaluated { result: run.result, printed: run.printed }
}

/// What one statement comes to.
pub open spec fn exec_statement(
    env: EnvironmentView,
    statement: StatementView,
    depth: nat,
    printed: Seq<Seq<char>>,
) -> Executed
    decreases depth, statement, 0int,
{
    match statement {
        StatementView::Expression(expr) => {
            let value = eval_expr(env, expr, None, depth, printed);
            Executed { result: value.result, env, printed: value.printed }
        },
        StatementView::Return { value, .. } => {
            let inner = eval_expr(env, value, None, depth, printed);
            Executed {
                result: match inner.result {
                    Ok(carried) => Ok(ObjectView::Return(Box::new(carried))),
                    Err(errors) => Err(errors),
                },
                env,
                printed: inner.printed,
            }
        },
        StatementView::Let { name, value, .. } => {
            let inner = eval_expr(env, value, Some(name), depth, printed);
            match inner.result {
                Ok(bound) => Executed {
                    result: Ok(ObjectView::Null),
                    env: EnvironmentView {
                        outer: env.outer,
                        values: bind(env.values, name.value, bound),
                    },
                    printed: inner.printed,
                },
                Err(errors) => Executed { result: Err(errors), env, printed: inner.printed },
            }
        },
    }
}

/// What the statements `statements[from..]` come to, run in order, after
/// earlier ones have left the errors `errors` and the value `last`.
///
/// A statement that fails adds its errors, and the next one runs. A value
/// that a `return` carries ends the run, still wrapped. In the end the errors
/// are the outcome if there are any, else the value of the last statement.
pub open spec fn exec_statements(
    env: EnvironmentView,
    statements: Seq<StatementView>,
    from: int,
    errors: Seq<ErrorView>,
    last: ObjectView,
    depth: nat,
    printed: Seq<Seq<char>>,
) -> Executed
    decreases depth, statements, statements.len() - from,
{
    if 0 <= from < statements.len() {
        let step = exec_statement(env, statements[from], depth, printed);
        match step.result {
            Ok(ObjectView::Return(carried)) => Executed {
                result: if errors.len() > 0 {
                    Err(errors)
                } else {
                    Ok(ObjectView::Return(carried))
                },
                env: step.env,
                printed: step.printed,
            },
            Ok(value) => exec_statements(
                step.env,
                statements,
                from + 1,
                errors,
                value,
                depth,
                step.printed,
            ),
            Err(more) => exec_statements(
                step.env,
                statements,
                from + 1,
                errors + more,
                last,
                depth,
                step.printed,
            ),
        }
    } else {
        Executed {
            result: if errors.len() > 0 {
                Err(errors)
            } else {
                Ok(last)
            },
            env,
            printed,
        }
    }
}

/// What a program comes to when it runs in `env`: the value of its last
/// statement or what a `return` carried, or all the errors of its statements.
pub open spec fn exec_program(
    env: EnvironmentView,
    program: ProgramView,
    printed: Seq<Seq<char>>,
) -> Executed {
    let run = exec_statements(
        env,
        program.statements,
        0,
        Seq::empty(),
        ObjectView::Null,
        MAX_CALL_DEPTH as nat,
        printed,
    );
    Executed { result: unwrap_return(run.result), env: run.env, printed: run.printed }
}

/// The value of a name hint.
pub open spec fn hint_view(hint: Option<&Identifier>) -> Option<IdentifierView> {
    match hint {
        Some(name) => Some(name@),
        None => None,
    }
}

/// The list that holds just `error`.
fn one_error(span: Span, kind: ErrorKind) -> (errors: Vec<Error>)
    ensures
        errors_view(errors@) == seq![ErrorView { span, kind: kind@ }],
{
    let mut errors: Vec<Error> = Vec::new();
    errors.push(Error { span, kind });
    assert(errors_view(errors@) =~= seq![ErrorView { span, kind: kind@ }]);
    errors
}

/// Hands back what a function or a program returns: the value of its last
/// statement, or what a `return` carried.
fn unwrapped(result: Result<Object, Vec<Error>>) -> (value: Result<Object, Vec<Error>>)
    ensures
        outcome_view(value) == unwrap_return(outcome_view(result)),
{
    match result {
        Ok(Object::Return(carried)) => Ok(*carried),
        other => other,
    }
}

/// The environment in which the body of `closure` runs when it is called
/// with `args`.
fn environment_of_call(closure: &Rc<Function>, args: &Vec<Object>) -> (env: Environment)
    ensures
        env@ == call_environment(closure@, objects_view(args@)),
{
    let captured: &Environment = &closure.env;
    let mut values = clone_bindings(&captured.values);
    let ghost function = closure@;
    let ghost shown = objects_view(args@);
    proof {
        lemma_environment_model(*captured);
    }
    let mut i: usize = 0;
    while i < args.len() && i < closure.parameters.len()
        invariant
            i <= args.len(),
            i <= closure.parameters.len(),
            function == closure@,
            function.parameters == identifiers_view((*closure.parameters)@),
            function.env.values == bindings_view(captured.values@),
            function.env.outer == closure.env.model().outer,
            closure.env == *captured,
            shown == objects_view(args@),
            bind_parameters(function.env.values, function.parameters, shown, 0) == bind_parameters(
                bindings_view(values@),
                function.parameters,
                shown,
                i as int,
            ),
        decreases args.len() - i,
    {
        let name = closure.parameters[i].value.clone();
        let value = args[i].clone();
        insert_binding(&mut values, name, value);
        i += 1;
    }
    let outer = match &closure.env.outer {
        Some(outer) => Some(share(outer)),
        None => None,
    };
    match &closure.this {
        Some(name) => {
            insert_binding(&mut values, name.value.clone(), Object::Function(share(closure)));
        },
        None => {},
    }
    let env = Environment { outer, values, output: Vec::new() };
    proof {
        lemma_environment_model(env);
    }
    env
}

impl Environment {
    /// The environment without bindings.
    pub fn new() -> (env: Environment)
        ensures
            env@ == (EnvironmentView { outer: None, values: Seq::empty() }),
            env.output@.len() == 0,
    {
        let env = Environment { outer: None, values: Vec::new(), output: Vec::new() };
        proof {
            lemma_environment_model(env);
            assert(bindings_view(env.values@) =~= Seq::empty());
        }
        env
    }

    /// A copy of the bindings, scope by scope.
    pub fn snapshot(&self) -> (copy: Environment)
        ensures
            copy@ == self@,
            copy.output@.len() == 0,
    {
        let outer = match &self.outer {
            Some(outer) => Some(share(outer)),
            None => None,
        };
        let copy = Environment { outer, values: clone_bindings(&self.values), output: Vec::new() };
        proof {
            lemma_environment_model(copy);
            lemma_environment_model(*self);
        }
        copy
    }

    /// A new innermost scope without bindings, inside a copy of `self`.
    fn child(&self) -> (inner: Environment)
        ensures
            inner@ == child_of(self@),
    {
        let inner = Environment {
            outer: Some(Rc::new(self.snapshot())),
            values: Vec::new(),
            output: Vec::new(),
        };
        proof {
            lemma_environment_model(inner);
            assert(bindings_view(inner.values@) =~= Seq::empty());
        }
        inner
    }

    /// The value bound to `name` in the innermost scope that binds it.
    pub fn find_variable(&self, name: &String) -> (value: Option<Object>)
        ensures
            match lookup(self@, name@) {
                Some(found) => value is Some && value->0@ == found,
                None => value is None,
            },
        decreases self,
    {
        proof {
            lemma_environment_model(*self);
            lemma_binding_index(bindings_view(self.values@), name@);
        }
        let at = find_binding(&self.values, name);
        if at < self.values.len() {
            Some(self.values[at].1.clone())
        } else {
            match &self.outer {
                Some(outer) => outer.find_variable(name),
                None => None,
            }
        }
    }

    /// Runs `program` in this environment.
    ///
    /// Returns the value of the last statement, or what a `return` carried;
    /// or, if any statement failed, the errors of all that did. Bindings that
    /// the program's `let` statements made stay in the environment, and the
    /// lines that it printed are put at the end of `output`.
    pub fn eval_program(&mut self, program: Program) -> (result: Result<Object, Vec<Error>>)
        ensures
            ({
                let run = exec_program(old(self)@, program@, strings_view(old(self).output@));
                &&& outcome_view(result) == run.result
                &&& final(self)@ == run.env
                &&& strings_view(final(self).output@) == run.printed
            }),
    {
        let mut out: Vec<String> = Vec::new();
        std::mem::swap(&mut out, &mut self.output);
        proof {
            lemma_environment_model(*self);
            lemma_environment_model(*old(self));
        }
        assert(self@ == old(self)@);
        let result = self.eval_statements(&program.statements, MAX_CALL_DEPTH, &mut out);
        let ghost after = self@;
        std::mem::swap(&mut out, &mut self.output);
        proof {
            lemma_environment_model(*self);
            assert(self@.values == after.values);
            assert(self@ == after);
        }
        unwrapped(result)
    }

    /// Runs statements in order; see [`exec_statements`].
    fn eval_statements(
        &mut self,
        statements: &Vec<Statement>,
        depth: usize,
        out: &mut Vec<String>,
    ) -> (result: Result<Object, Vec<Error>>)
        ensures
            ({
                let run = exec_statements(
                    old(self)@,
                    statements_view(statements@),
                    0,
                    Seq::empty(),
                    ObjectView::Null,
                    depth as nat,
                    strings_view(old(out)@),
                );
                &&& outcome_view(result) == run.result
                &&& final(self)@ == run.env
                &&& strings_view(final(out)@) == run.printed
            }),
        decreases depth, statements,
    {
        let ghost all = statements_view(statements@);
        let ghost goal = exec_statements(
            self@,
            all,
            0,
            Seq::empty(),
            ObjectView::Null,
            depth as nat,
            strings_view(out@),
        );
        let mut errors: Vec<Error> = Vec::new();
        let mut last = Object::Null;
        let mut i: usize = 0;
        assert(errors_view(errors@) =~= Seq::empty());
        while i < statements.len()
            invariant
                i <= statements.len(),
                all == statements_view(statements@),
                goal == exec_statements(
                    old(self)@,
                    all,
                    0,
                    Seq::empty(),
                    ObjectView::Null,
                    depth as nat,
                    strings_view(old(out)@),
                ),
                goal == exec_statements(
                    self@,
                    all,
                    i as int,
                    errors_view(errors@),
                    last@,
                    depth as nat,
                    strings_view(out@),
                ),
            decreases statements.len() - i,
        {
            proof {
                assert(decreases_to!(*statements => statements[i as int]));
            }
            let ghost before = errors_view(errors@);
            match self.eval_statement(&statements[i], depth, out) {
                Ok(Object::Return(carried)) => {
                    if errors.len() > 0 {
                        return Err(errors);
                    } else {
                        return Ok(Object::Return(carried));
                    }
                },
                Ok(value) => {
                    last = value;
                },
                Err(mut more) => {
                    let ghost added = errors_view(more@);
                    errors.append(&mut more);
                    assert(errors_view(errors@) =~= before + added);
                },
            }
            i += 1;
        }
        if errors.len() > 0 {
            Err(errors)
        } else {
            Ok(last)
        }
    }

    /// Runs one statement; see [`exec_statement`].
    fn eval_statement(&mut self, statement: &Statement, depth: usize, out: &mut Vec<String>) -> (result:
        Result<Object, Vec<Error>>)
        ensures
            ({
                let run = exec_statement(
                    old(self)@,
                    statement@,
                    depth as nat,
                    strings_view(old(out)@),
                );
                &&& outcome_view(result) == run.result
                &&& final(self)@ == run.env
                &&& strings_view(final(out)@) == run.printed
            }),
        decreases depth, statement,
    {
        match statement {
            Statement::Expression(expr) => self.eval_expression(expr, None, depth, out),
            Statement::Return { value, .. } => {
                match self.eval_expression(value, None, depth, out) {
                    Ok(carried) => Ok(Object::Return(Box::new(carried))),
                    Err(errors) => Err(errors),
                }
            },
            Statement::Let { name, value, .. } => {
                match self.eval_expression(value, Some(name), depth, out) {
                    Ok(bound) => {
                        proof {
                            lemma_environment_model(*self);
                        }
                        insert_binding(&mut self.values, name.value.clone(), bound);
                        proof {
                            lemma_environment_model(*self);
                        }
                        Ok(Object::Null)
                    },
                    Err(errors) => Err(errors),
                }
            },
        }
    }

    /// Runs a block in a new scope of its own; see [`eval_block`].
    fn eval_block_statement(&self, block: &BlockStatement, depth: usize, out: &mut Vec<String>) -> (result:
        Result<Object, Vec<Error>>)
        ensures
            ({
                let run = eval_block(self@, block@, depth as nat, strings_view(old(out)@));
                &&& outcome_view(result) == run.result
                &&& strings_view(final(out)@) == run.printed
            }),
        decreases depth, block,
    {
        proof {
            lemma_block_statements(*block);
        }
        let mut inner = self.child();
        inner.eval_statements(&block.statements, depth, out)
    }

    /// Evaluates expressions from left to right and collects the values of
    /// those that have one and the errors of the others; see [`eval_list`].
    fn eval_expressions(&self, items: &Vec<Expression>, depth: usize, out: &mut Vec<String>) -> (result:
        (Vec<Object>, Vec<Error>))
        ensures
            ({
                let run = eval_list(
                    self@,
                    expressions_view(items@),
                    0,
                    Seq::empty(),
                    Seq::empty(),
                    depth as nat,
                    strings_view(old(out)@),
                );
                &&& objects_view(result.0@) == run.values
                &&& errors_view(result.1@) == run.errors
                &&& strings_view(final(out)@) == run.printed
            }),
        decreases depth, items,
    {
        let ghost all = expressions_view(items@);
        let ghost goal = eval_list(
            self@,
            all,
            0,
            Seq::empty(),
            Seq::empty(),
            depth as nat,
            strings_view(out@),
        );
        let mut values: Vec<Object> = Vec::new();
        let mut errors: Vec<Error> = Vec::new();
        let mut i: usize = 0;
        assert(errors_view(errors@) =~= Seq::empty());
        assert(objects_view(values@) =~= Seq::empty());
        while i < items.len()
            invariant
                i <= items.len(),
                all == expressions_view(items@),
                goal == eval_list(
                    self@,
                    all,
                    0,
                    Seq::empty(),
                    Seq::empty(),
                    depth as nat,
                    strings_view(old(out)@),
                ),
                goal == eval_list(
                    self@,
                    all,
                    i as int,
                    objects_view(values@),
                    errors_view(errors@),
                    depth as nat,
                    strings_view(out@),
                ),
            decreases items.len() - i,
        {
            proof {
                assert(decreases_to!(*items => items[i as int]));
            }
            let ghost before = errors_view(errors@);
            let ghost so_far = objects_view(values@);
            match self.eval_expression(&items[i], None, depth, out) {
                Ok(value) => {
                    values.push(value);
                    assert(objects_view(values@) =~= so_far.push(value@));
                },
                Err(mut more) => {
                    let ghost added = errors_view(more@);
                    errors.append(&mut more);
                    assert(errors_view(errors@) =~= before + added);
                },
            }
            i += 1;
        }
        (values, errors)
    }

    /// Evaluates the entries of a map literal; see [`eval_entries`].
    fn eval_hash(
        &self,
        entries: &Vec<(Expression, Expression)>,
        depth: usize,
        out: &mut Vec<String>,
    ) -> (result: Result<Object, Vec<Error>>)
        ensures
            ({
                let run = eval_entries(
                    self@,
                    entries_view(entries@),
                    0,
                    Seq::empty(),
                    depth as nat,
                    strings_view(old(out)@),
                );
                &&& outcome_view(result) == run.result
                &&& strings_view(final(out)@) == run.printed
            }),
        decreases depth, entries,
    {
        let ghost all = entries_view(entries@);
        let ghost goal = eval_entries(
            self@,
            all,
            0,
            Seq::empty(),
            depth as nat,
            strings_view(out@),
        );
        let mut map = ObjectMap::new();
        let mut i: usize = 0;
        assert(map@ =~= Seq::empty());
        while i < entries.len()
            invariant
                i <= entries.len(),
                all == entries_view(entries@),
                goal == eval_entries(
                    self@,
                    all,
                    0,
                    Seq::empty(),
                    depth as nat,
                    strings_view(old(out)@),
                ),
                goal == eval_entries(self@, all, i as int, map@, depth as nat, strings_view(out@)),
            decreases entries.len() - i,
        {
            proof {
                assert(decreases_to!(*entries => entries[i as int]));
                assert(decreases_to!(entries[i as int] => entries[i as int].0));
                assert(decreases_to!(entries[i as int] => entries[i as int].1));
            }
            let key = match self.eval_expression(&entries[i].0, None, depth, out) {
                Ok(key) => key,
                Err(errors) => {
                    return Err(errors);
                },
            };
            if !key.is_key() {
                return Err(one_error(entries[i].0.span(), ErrorKind::InvalidKey(key.kind())));
            }
            let value = match self.eval_expression(&entries[i].1, None, depth, out) {
                Ok(value) => value,
                Err(errors) => {
                    return Err(errors);
                },
            };
            map.insert(key, value);
            i += 1;
        }
        let result = Object::Hash(map);
        proof {
            lemma_object_model(result);
        }
        Ok(result)
    }

    /// Evaluates an expression; see [`eval_expr`]. `ident` is the name that a
    /// `let` is about to bind the value to.
    #[verifier::rlimit(100)]
    #[verifier::spinoff_prover]
    fn eval_expression(
        &self,
        expr: &Expression,
        ident: Option<&Identifier>,
        depth: usize,
        out: &mut Vec<String>,
    ) -> (result: Result<Object, Vec<Error>>)
        ensures
            ({
                let run = eval_expr(
                    self@,
                    expr@,
                    hint_view(ident),
                    depth as nat,
                    strings_view(old(out)@),
                );
                &&& outcome_view(result) == run.result
                &&& strings_view(final(out)@) == run.printed
            }),
        decreases depth, expr,
    {
        proof {
            lemma_model_sequences(*expr);
        }
        let span = expr.span();
        match expr {
            Expression::Integer { value, .. } => Ok(Object::Integer(*value)),
            Expression::Boolean { value, .. } => Ok(Object::Boolean(*value)),
            Expression::String { value, .. } => Ok(Object::String(value.clone())),
            Expression::Null { .. } => Ok(Object::Null),
            Expression::Identifier(name) => match self.find_variable(&name.value) {
                Some(value) => Ok(value),
                None => Err(
                    one_error(name.token.span, ErrorKind::UndefinedVariable(name.value.clone())),
                ),
            },
            Expression::Prefix { operator, operand, .. } => {
                match self.eval_expression(operand, None, depth, out) {
                    Err(errors) => Err(errors),
                    Ok(value) => match apply_prefix(*operator, value) {
                        Ok(result) => Ok(result),
                        Err(kind) => Err(one_error(span, kind)),
                    },
                }
            },
            Expression::Infix { left, operator, right } => {
                let left_value = match self.eval_expression(left, None, depth, out) {
                    Ok(value) => value,
                    Err(errors) => {
                        return Err(errors);
                    },
                };
                let right_value = match self.eval_expression(right, None, depth, out) {
                    Ok(value) => value,
                    Err(errors) => {
                        return Err(errors);
                    },
                };
                match apply_infix(*operator, left_value, right_value) {
                    Ok(result) => Ok(result),
                    Err(kind) => Err(one_error(span, kind)),
                }
            },
            Expression::If { condition, consequence, alternative, .. } => {
                let test = match self.eval_expression(condition, None, depth, out) {
                    Ok(value) => value,
                    Err(errors) => {
                        return Err(errors);
                    },
                };
                if test.truthy() {
                    self.eval_block_statement(consequence, depth, out)
                } else {
                    match alternative {
                        Some(block) => self.eval_block_statement(block, depth, out),
                        None => Ok(Object::Null),
                    }
                }
            },
            Expression::Function { parameters, body, .. } => {
                let this = match ident {
                    Some(name) => Some(name.clone()),
                    None => None,
                };
                let function = Function {
                    this,
                    parameters: share(parameters),
                    body: share(body),
                    env: self.child(),
                };
                proof {
                    let made = function.model();
                    assert(made.this == hint_view(ident));
                    assert(made.parameters == identifiers_view((*parameters)@));
                    assert(made.body == (*body).model());
                    assert(made.env == child_of(self@));
                }
                Ok(Object::Function(Rc::new(function)))
            },
            Expression::Call { function, open_span, arguments, close_span } => {
                let args_span = Span { start: open_span.start, end: close_span.end };
                proof {
                    lemma_model_sequences(**function);
                    assert((**function) is Identifier <==> (**function).model() is Identifier);
                }
                let builtin = match &**function {
                    Expression::Identifier(name) => lookup_intrinsic(name.value.as_str()),
                    _ => None,
                };
                match builtin {
                    Some(which) => {
                        let (values, errors) = self.eval_expressions(arguments, depth, out);
                        if errors.len() > 0 {
                            return Err(errors);
                        }
                        match which.call(&values, args_span, out) {
                            Ok(value) => Ok(value),
                            Err(error) => {
                                let mut errors: Vec<Error> = Vec::new();
                                errors.push(error);
                                assert(errors_view(errors@) =~= seq![error@]);
                                Err(errors)
                            },
                        }
                    },
                    None => {
                        let callee = match self.eval_expression(function, None, depth, out) {
                            Ok(value) => value,
                            Err(errors) => {
                                return Err(errors);
                            },
                        };
                        match callee {
                            Object::Function(closure) => {
                                assert(closure.model().parameters == identifiers_view(
                                    (*closure.parameters)@,
                                ));
                                assert(callee@ == ObjectView::Function(Box::new(closure.model())));
                                if arguments.len() != closure.parameters.len() {
                                    return Err(
                                        one_error(
                                            args_span,
                                            ErrorKind::WrongNumberOfArguments {
                                                expected: closure.parameters.len(),
                                                got: arguments.len(),
                                            },
                                        ),
                                    );
                                }
                                let (values, errors) = self.eval_expressions(arguments, depth, out);
                                if errors.len() > 0 {
                                    return Err(errors);
                                }
                                if depth == 0 {
                                    return Err(one_error(span, ErrorKind::RecursionLimit));
                                }
                                let call_env = environment_of_call(&closure, &values);
                                let result = call_env.eval_block_statement(
                                    &closure.body,
                                    depth - 1,
                                    out,
                                );
                                unwrapped(result)
                            },
                            _ => Err(one_error(span, ErrorKind::NotAFunction)),
                        }
                    },
                }
            },
            Expression::Array { elements, .. } => {
                let (values, errors) = self.eval_expressions(elements, depth, out);
                if errors.len() > 0 {
                    return Err(errors);
                }
                let result = Object::Array(values);
                proof {
                    lemma_object_model(result);
                }
                Ok(result)
            },
            Expression::Index { collection, index, .. } => {
                let target = match self.eval_expression(collection, None, depth, out) {
                    Ok(value) => value,
                    Err(errors) => {
                        return Err(errors);
                    },
                };
                proof {
                    lemma_object_model(target);
                }
                match target {
                    Object::Array(items) => {
                        let position = match self.eval_expression(index, None, depth, out) {
                            Ok(value) => value,
                            Err(errors) => {
                                return Err(errors);
                            },
                        };
                        match position {
                            Object::Integer(i) => {
                                if i < 0 || i as u64 >= items.len() as u64 {
                                    Err(
                                        one_error(
                                            index.span(),
                                            ErrorKind::OutOfBounds { i, len: items.len() },
                                        ),
                                    )
                                } else {
                                    Ok(items[i as usize].clone())
                                }
                            },
                            _ => Err(one_error(index.span(), ErrorKind::NotAnIndex)),
                        }
                    },
                    Object::Hash(map) => {
                        let key = match self.eval_expression(index, None, depth, out) {
                            Ok(value) => value,
                            Err(errors) => {
                                return Err(errors);
                            },
                        };
                        if !key.is_key() {
                            return Err(one_error(span, ErrorKind::InvalidKey(key.kind())));
                        }
                        match map.get(&key) {
                            Some(value) => Ok(value.clone()),
                            None => Ok(Object::Null),
                        }
                    },
                    _ => Err(one_error(span, ErrorKind::NotACollection)),
                }
            },
            Expression::Hash { entries, .. } => self.eval_hash(entries, depth, out),
        }
    }
}

impl Default for Environment {
    fn default() -> (env: Self)
        ensures
            env@ == (EnvironmentView { outer: None, values: Seq::empty() }),
            env.output@.len() == 0,
    {
        Environment::new()
    }
}

/// Exactly `null` and `false` count as false in a condition.
pub proof fn law_truthiness(value: ObjectView)
    ensures
        !value.truthy() <==> (value == ObjectView::Null || value == ObjectView::Boolean(false)),
{
}

} // verus!
