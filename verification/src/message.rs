use crate::eval::ErrorKindView;
use crate::parser::Expected;
use crate::text::decimal;
use crate::text::decimal_nat;
use crate::text::push_decimal;
use crate::text::push_integer;
use crate::text::push_str;
use vstd::prelude::*;

verus! {

/// What a syntax error says to the user.
pub open spec fn syntax_message(kind: crate::parser::ErrorKind) -> Seq<char> {
    match kind {
        crate::parser::ErrorKind::Unexpected { expected, found } => "Unexpected token. Expected "@
            + (match expected {
            Expected::Statement => "statement"@,
            Expected::Expression => "expression"@,
            Expected::Token(kind) => kind.spec_name()@,
        }) + ", found "@ + (match found {
            Some(kind) => kind.spec_name()@,
            None => "end of input"@,
        }) + "."@,
        crate::parser::ErrorKind::ParseInt => "Failed to parse integer literal."@,
    }
}

/// What an error of a running program says to the user.
pub open spec fn runtime_message(kind: ErrorKindView) -> Seq<char> {
    match kind {
        ErrorKindView::InvalidOperands { operator, left, right } => "Cannot use `"@
            + operator.spec_symbol()@ + "` with "@ + left.spec_name()@ + " and "@
            + right.spec_name()@,
        ErrorKindView::InvalidOperand { operator, operand } => "Cannot use `"@
            + operator.spec_symbol()@ + "` with "@ + operand.spec_name()@,
        ErrorKindView::UndefinedVariable(name) => "Undefined variable `"@ + name + "`"@,
        ErrorKindView::NotAFunction => "Cannot call a non-function"@,
        ErrorKindView::WrongNumberOfArguments { expected, got } => "Expected "@ + decimal_nat(
            expected as nat,
        ) + (if expected > 1 {
            " arguments, got "@
        } else {
            " argument, got "@
        }) + decimal_nat(got as nat),
        ErrorKindView::NotACollection => "Cannot index into a non-collection"@,
        ErrorKindView::NotAnIndex => "Cannot index an array with a non-integer"@,
        ErrorKindView::OutOfBounds { i, len } => "Out of bounds: index was "@ + decimal(i as int)
            + " but length was "@ + decimal_nat(len as nat),
        ErrorKindView::InvalidKey(kind) => kind.spec_name()@ + " cannot be used as a map key"@,
        ErrorKindView::DivisionByZero => "Division by zero"@,
        ErrorKindView::TooLongForLen => "Length greater than i64::MAX"@,
        ErrorKindView::BadTypeForLen(kind) => "Cannot get length of "@ + kind.spec_name()@,
        ErrorKindView::NotAnArray => "Expected an array"@,
        ErrorKindView::RecursionLimit => "Too many nested calls"@,
    }
}

/// What an error of the stack machine says to the user.
pub open spec fn machine_message(error: crate::vm::ErrorView) -> Seq<char> {
    match error {
        crate::vm::ErrorView::Underflow => "Stack underflow"@,
        crate::vm::ErrorView::Overflow => "Stack overflow"@,
        crate::vm::ErrorView::StepLimit => "Step limit exceeded"@,
        crate::vm::ErrorView::InvalidConstant(index) => "No constant "@ + decimal_nat(index as nat),
        crate::vm::ErrorView::Eval(error) => runtime_message(error.kind),
    }
}

impl Expected {
    /// What was expected, as the message names it.
    pub fn to_string(&self) -> (text: String)
        ensures
            text@ == match *self {
                Expected::Statement => "statement"@,
                Expected::Expression => "expression"@,
                Expected::Token(kind) => kind.spec_name()@,
            },
    {
        match self {
            Expected::Statement => "statement".to_owned(),
            Expected::Expression => "expression".to_owned(),
            Expected::Token(kind) => kind.to_string(),
        }
    }
}

impl crate::parser::ErrorKind {
    /// The message for the user.
    pub fn to_string(&self) -> (text: String)
        ensures
            text@ == syntax_message(*self),
    {
        match self {
            crate::parser::ErrorKind::Unexpected { expected, found } => {
                let mut text = "Unexpected token. Expected ".to_owned();
                let wanted = expected.to_string();
                push_str(&mut text, wanted.as_str());
                push_str(&mut text, ", found ");
                match found {
                    Some(kind) => push_str(&mut text, kind.name()),
                    None => push_str(&mut text, "end of input"),
                }
                push_str(&mut text, ".");
                text
            },
            crate::parser::ErrorKind::ParseInt => "Failed to parse integer literal.".to_owned(),
        }
    }
}

impl crate::parser::Error {
    /// The message for the user.
    pub fn to_string(&self) -> (text: String)
        ensures
            text@ == syntax_message(self.kind),
    {
        self.kind.to_string()
    }
}

impl crate::eval::ErrorKind {
    /// The message for the user.
    pub fn to_string(&self) -> (text: String)
        ensures
            text@ == runtime_message(self@),
    {
        match self {
            crate::eval::ErrorKind::InvalidOperands { operator, left, right } => {
                let mut text = "Cannot use `".to_owned();
                push_str(&mut text, operator.symbol());
                push_str(&mut text, "` with ");
                push_str(&mut text, left.name());
                push_str(&mut text, " and ");
                push_str(&mut text, right.name());
                text
            },
            crate::eval::ErrorKind::InvalidOperand { operator, operand } => {
                let mut text = "Cannot use `".to_owned();
                push_str(&mut text, operator.symbol());
                push_str(&mut text, "` with ");
                push_str(&mut text, operand.name());
                text
            },
            crate::eval::ErrorKind::UndefinedVariable(name) => {
                let mut text = "Undefined variable `".to_owned();
                push_str(&mut text, name.as_str());
                push_str(&mut text, "`");
                text
            },
            crate::eval::ErrorKind::NotAFunction => "Cannot call a non-function".to_owned(),
            crate::eval::ErrorKind::WrongNumberOfArguments { expected, got } => {
                let mut text = "Expected ".to_owned();
                push_decimal(&mut text, *expected as u64);
                if *expected > 1 {
                    push_str(&mut text, " arguments, got ");
                } else {
                    push_str(&mut text, " argument, got ");
                }
                push_decimal(&mut text, *got as u64);
                text
            },
            crate::eval::ErrorKind::NotACollection => "Cannot index into a non-collection".to_owned(),
            crate::eval::ErrorKind::NotAnIndex => "Cannot index an array with a non-integer".to_owned(),
            crate::eval::ErrorKind::OutOfBounds { i, len } => {
                let mut text = "Out of bounds: index was ".to_owned();
                push_integer(&mut text, *i);
                push_str(&mut text, " but length was ");
                push_decimal(&mut text, *len as u64);
                text
            },
            crate::eval::ErrorKind::InvalidKey(kind) => {
                let mut text = kind.to_string();
                push_str(&mut text, " cannot be used as a map key");
                text
            },
            crate::eval::ErrorKind::DivisionByZero => "Division by zero".to_owned(),
            crate::eval::ErrorKind::TooLongForLen => "Length greater than i64::MAX".to_owned(),
            crate::eval::ErrorKind::BadTypeForLen(kind) => {
                let mut text = "Cannot get length of ".to_owned();
                push_str(&mut text, kind.name());
                text
            },
            crate::eval::ErrorKind::NotAnArray => "Expected an array".to_owned(),
            crate::eval::ErrorKind::RecursionLimit => "Too many nested calls".to_owned(),
        }
    }
}

impl crate::eval::Error {
    /// The message for the user.
    pub fn to_string(&self) -> (text: String)
        ensures
            text@ == runtime_message(self@.kind),
    {
        self.kind.to_string()
    }
}

impl crate::vm::Error {
    /// The message for the user.
    pub fn to_string(&self) -> (text: String)
        ensures
            text@ == machine_message(self@),
    {
        match self {
            crate::vm::Error::Underflow => "Stack underflow".to_owned(),
            crate::vm::Error::Overflow => "Stack overflow".to_owned(),
            crate::vm::Error::StepLimit => "Step limit exceeded".to_owned(),
            crate::vm::Error::InvalidConstant(index) => {
                let mut text = "No constant ".to_owned();
                push_decimal(&mut text, *index as u64);
                text
            },
            crate::vm::Error::Eval(error) => error.to_string(),
        }
    }
}

} // verus!
