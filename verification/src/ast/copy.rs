use crate::ast::BlockStatement;
use crate::ast::entries_view;
use crate::ast::Expression;
use crate::ast::expressions_view;
use crate::ast::Identifier;
use crate::ast::lemma_block_statements;
use crate::ast::lemma_model_sequences;
use crate::ast::Program;
use crate::ast::Statement;
use crate::ast::statements_view;
use crate::object::share;
use vstd::prelude::*;

verus! {

/// A copy of a list of expressions.
fn copy_expressions(items: &Vec<Expression>) -> (copies: Vec<Expression>)
    ensures
        expressions_view(copies@) == expressions_view(items@),
    decreases items, 0int,
{
    let mut copies: Vec<Expression> = Vec::new();
    let mut i: usize = 0;
    while i < items.len()
        invariant
            i <= items.len(),
            copies@.len() == i,
            forall|j: int| 0 <= j < i ==> copies@[j]@ == items@[j]@,
        decreases items.len() - i,
    {
        proof {
            assert(decreases_to!(*items => items[i as int]));
        }
        copies.push(copy_expression(&items[i]));
        i += 1;
    }
    assert(expressions_view(copies@) =~= expressions_view(items@));
    copies
}

/// A copy of a list of entries.
fn copy_entries(items: &Vec<(Expression, Expression)>) -> (copies: Vec<(Expression, Expression)>)
    ensures
        entries_view(copies@) == entries_view(items@),
    decreases items, 0int,
{
    let mut copies: Vec<(Expression, Expression)> = Vec::new();
    let mut i: usize = 0;
    while i < items.len()
        invariant
            i <= items.len(),
            copies@.len() == i,
            forall|j: int|
                0 <= j < i ==> copies@[j].0@ == items@[j].0@ && copies@[j].1@ == items@[j].1@,
        decreases items.len() - i,
    {
        proof {
            assert(decreases_to!(*items => items[i as int]));
            assert(decreases_to!(items[i as int] => items[i as int].0));
            assert(decreases_to!(items[i as int] => items[i as int].1));
        }
        let key = copy_expression(&items[i].0);
        let value = copy_expression(&items[i].1);
        copies.push((key, value));
        i += 1;
    }
    assert(entries_view(copies@) =~= entries_view(items@));
    copies
}

/// A copy of a list of statements.
fn copy_statements(items: &Vec<Statement>) -> (copies: Vec<Statement>)
    ensures
        statements_view(copies@) == statements_view(items@),
    decreases items, 0int,
{
    let mut copies: Vec<Statement> = Vec::new();
    let mut i: usize = 0;
    while i < items.len()
        invariant
            i <= items.len(),
            copies@.len() == i,
            forall|j: int| 0 <= j < i ==> copies@[j]@ == items@[j]@,
        decreases items.len() - i,
    {
        proof {
            assert(decreases_to!(*items => items[i as int]));
        }
        copies.push(copy_statement(&items[i]));
        i += 1;
    }
    assert(statements_view(copies@) =~= statements_view(items@));
    copies
}

/// A copy of a block.
fn copy_block(block: &BlockStatement) -> (copy: BlockStatement)
    ensures
        copy@ == block@,
    decreases block, 0int,
{
    let copy = BlockStatement {
        open: block.open,
        statements: copy_statements(&block.statements),
        close: block.close,
    };
    proof {
        lemma_block_statements(copy);
        lemma_block_statements(*block);
    }
    copy
}

/// A copy of a statement.
fn copy_statement(statement: &Statement) -> (copy: Statement)
    ensures
        copy@ == statement@,
    decreases statement, 0int,
{
    match statement {
        Statement::Let { let_span, name, value } => Statement::Let {
            let_span: *let_span,
            name: name.clone(),
            value: copy_expression(value),
        },
        Statement::Return { return_span, value } => Statement::Return {
            return_span: *return_span,
            value: copy_expression(value),
        },
        Statement::Expression(value) => Statement::Expression(copy_expression(value)),
    }
}

/// A copy of an expression. Function literals share their parameters and
/// their body with the copy.
fn copy_expression(expr: &Expression) -> (copy: Expression)
    ensures
        copy@ == expr@,
    decreases expr, 0int,
{
    let copy = match expr {
        Expression::Identifier(name) => Expression::Identifier(name.clone()),
        Expression::Integer { span, value } => Expression::Integer { span: *span, value: *value },
        Expression::Boolean { span, value } => Expression::Boolean { span: *span, value: *value },
        Expression::String { span, value } => Expression::String {
            span: *span,
            value: value.clone(),
        },
        Expression::Null { span } => Expression::Null { span: *span },
        Expression::Prefix { op_span, operator, operand } => Expression::Prefix {
            op_span: *op_span,
            operator: *operator,
            operand: Box::new(copy_expression(operand)),
        },
        Expression::Infix { left, operator, right } => Expression::Infix {
            left: Box::new(copy_expression(left)),
            operator: *operator,
            right: Box::new(copy_expression(right)),
        },
        Expression::If { if_span, condition, consequence, alternative } => Expression::If {
            if_span: *if_span,
            condition: Box::new(copy_expression(condition)),
            consequence: copy_block(consequence),
            alternative: match alternative {
                Some(block) => Some(copy_block(block)),
                None => None,
            },
        },
        Expression::Function { fn_span, parameters, body } => Expression::Function {
            fn_span: *fn_span,
            parameters: share(parameters),
            body: share(body),
        },
        Expression::Call { function, open_span, arguments, close_span } => Expression::Call {
            function: Box::new(copy_expression(function)),
            open_span: *open_span,
            arguments: copy_expressions(arguments),
            close_span: *close_span,
        },
        Expression::Array { open, elements, close } => Expression::Array {
            open: *open,
            elements: copy_expressions(elements),
            close: *close,
        },
        Expression::Index { collection, index, close_span } => Expression::Index {
            collection: Box::new(copy_expression(collection)),
            index: Box::new(copy_expression(index)),
            close_span: *close_span,
        },
        Expression::Hash { open, entries, close } => Expression::Hash {
            open: *open,
            entries: copy_entries(entries),
            close: *close,
        },
    };
    proof {
        lemma_model_sequences(copy);
        lemma_model_sequences(*expr);
    }
    copy
}

impl Clone for Expression {
    fn clone(&self) -> (copy: Self)
        ensures
            copy@ == self@,
    {
        copy_expression(self)
    }
}

impl Clone for Statement {
    fn clone(&self) -> (copy: Self)
        ensures
            copy@ == self@,
    {
        copy_statement(self)
    }
}

impl Clone for BlockStatement {
    fn clone(&self) -> (copy: Self)
        ensures
            copy@ == self@,
    {
        copy_block(self)
    }
}

impl Clone for Program {
    fn clone(&self) -> (copy: Self)
        ensures
            copy@ == self@,
    {
        Program { statements: copy_statements(&self.statements) }
    }
}

} // verus!
