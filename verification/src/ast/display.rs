use crate::ast::BlockStatement;
use crate::ast::BlockView;
use crate::ast::entries_view;
use crate::ast::Expression;
use crate::ast::expressions_view;
use crate::ast::ExpressionView;
use crate::ast::Identifier;
use crate::ast::identifiers_view;
use crate::ast::IdentifierView;
use crate::ast::InfixOperator;
use crate::ast::lemma_block_statements;
use crate::ast::lemma_model_sequences;
use crate::ast::PrefixOperator;
use crate::ast::Program;
use crate::ast::Statement;
use crate::ast::statements_view;
use crate::ast::StatementView;
use crate::text::decimal;
use crate::text::push_integer;
use crate::text::push_str;
use vstd::prelude::*;

verus! {

impl InfixOperator {
    /// The operator as it is written in source text.
    pub open spec fn spec_symbol(self) -> &'static str {
        match self {
            InfixOperator::Add => "+",
            InfixOperator::Sub => "-",
            InfixOperator::Mul => "*",
            InfixOperator::Div => "/",
            InfixOperator::Eq => "==",
            InfixOperator::Neq => "!=",
            InfixOperator::LT => "<",
            InfixOperator::GT => ">",
        }
    }

    /// The operator as it is written in source text.
    pub fn symbol(self) -> (symbol: &'static str)
        ensures
            symbol@ == self.spec_symbol()@,
    {
        match self {
            InfixOperator::Add => "+",
            InfixOperator::Sub => "-",
            InfixOperator::Mul => "*",
            InfixOperator::Div => "/",
            InfixOperator::Eq => "==",
            InfixOperator::Neq => "!=",
            InfixOperator::LT => "<",
            InfixOperator::GT => ">",
        }
    }

    /// The operator as an owned string.
    pub fn to_string(&self) -> (text: String)
        ensures
            text@ == self.spec_symbol()@,
    {
        self.symbol().to_owned()
    }
}

impl PrefixOperator {
    /// The operator as it is written in source text.
    pub open spec fn spec_symbol(self) -> &'static str {
        match self {
            PrefixOperator::Not => "!",
            PrefixOperator::Neg => "-",
        }
    }

    /// The operator as it is written in source text.
    pub fn symbol(self) -> (symbol: &'static str)
        ensures
            symbol@ == self.spec_symbol()@,
    {
        match self {
            PrefixOperator::Not => "!",
            PrefixOperator::Neg => "-",
        }
    }

    /// The operator as an owned string.
    pub fn to_string(&self) -> (text: String)
        ensures
            text@ == self.spec_symbol()@,
    {
        self.symbol().to_owned()
    }
}

/// An expression as source text, every expression in parentheses of its own.
pub open spec fn show_expression(expr: ExpressionView) -> Seq<char>
    decreases expr, 1int,
{
    "("@ + show_inner(expr) + ")"@
}

/// An expression as source text, without the parentheses around it.
pub open spec fn show_inner(expr: ExpressionView) -> Seq<char>
    decreases expr, 0int,
{
    match expr {
        ExpressionView::Identifier(name) => name.value,
        ExpressionView::Integer { value, .. } => decimal(value as int),
        ExpressionView::Boolean { value, .. } => if value {
            "true"@
        } else {
            "false"@
        },
        ExpressionView::String { value, .. } => "\""@ + value + "\""@,
        ExpressionView::Null { .. } => "null"@,
        ExpressionView::Prefix { operator, operand, .. } => operator.spec_symbol()@
            + show_expression(*operand),
        ExpressionView::Infix { left, operator, right } => show_expression(*left) + " "@
            + operator.spec_symbol()@ + " "@ + show_expression(*right),
        ExpressionView::If { condition, consequence, alternative, .. } => "if "@ + show_expression(
            *condition,
        ) + " "@ + show_block(consequence) + match alternative {
            Some(block) => " else "@ + show_block(block),
            None => Seq::empty(),
        },
        ExpressionView::Function { parameters, body, .. } => "fn("@ + show_names(
            parameters,
            parameters.len() as int,
        ) + ") "@ + show_block(body),
        ExpressionView::Call { function, arguments, .. } => show_expression(*function) + "("@
            + show_list(arguments, arguments.len() as int) + ")"@,
        ExpressionView::Array { elements, .. } => "["@ + show_list(elements, elements.len() as int)
            + "]"@,
        ExpressionView::Index { collection, index, .. } => show_expression(*collection) + "["@
            + show_expression(*index) + "]"@,
        ExpressionView::Hash { entries, .. } => "{"@ + show_entries(entries, entries.len() as int)
            + "}"@,
    }
}

/// The first `upto` of `names`, with `, ` between them.
pub open spec fn show_names(names: Seq<IdentifierView>, upto: int) -> Seq<char>
    decreases upto,
{
    if upto <= 0 || upto > names.len() {
        Seq::empty()
    } else if upto == 1 {
        names[0].value
    } else {
        show_names(names, upto - 1) + ", "@ + names[upto - 1].value
    }
}

/// The first `upto` of `items` as source text, with `, ` between them.
pub open spec fn show_list(items: Seq<ExpressionView>, upto: int) -> Seq<char>
    decreases items, upto,
{
    if upto <= 0 || upto > items.len() {
        Seq::empty()
    } else if upto == 1 {
        show_expression(items[0])
    } else {
        show_list(items, upto - 1) + ", "@ + show_expression(items[upto - 1])
    }
}

/// The first `upto` of `entries` as source text, each as `key: value`, with
/// `, ` between them.
pub open spec fn show_entries(entries: Seq<(ExpressionView, ExpressionView)>, upto: int) -> Seq<
    char,
>
    decreases entries, upto,
{
    if upto <= 0 || upto > entries.len() {
        Seq::empty()
    } else if upto == 1 {
        show_expression(entries[0].0) + ": "@ + show_expression(entries[0].1)
    } else {
        show_entries(entries, upto - 1) + ", "@ + show_expression(entries[upto - 1].0) + ": "@
            + show_expression(entries[upto - 1].1)
    }
}

/// A statement as source text, with the semicolon that ends it.
pub open spec fn show_statement(statement: StatementView) -> Seq<char>
    decreases statement, 0int,
{
    match statement {
        StatementView::Let { name, value, .. } => "let "@ + name.value + " = "@ + show_expression(
            value,
        ) + ";"@,
        StatementView::Return { value, .. } => "return "@ + show_expression(value) + ";"@,
        StatementView::Expression(value) => show_expression(value) + ";"@,
    }
}

/// The first `upto` statements of a block, each on a line of its own after
/// a tab.
pub open spec fn show_lines(statements: Seq<StatementView>, upto: int) -> Seq<char>
    decreases statements, upto,
{
    if upto <= 0 || upto > statements.len() {
        Seq::empty()
    } else {
        show_lines(statements, upto - 1) + "\t"@ + show_statement(statements[upto - 1]) + "\n"@
    }
}

/// A block as source text: its statements between braces.
pub open spec fn show_block(block: BlockView) -> Seq<char>
    decreases block, 0int,
{
    "{\n"@ + show_lines(block.statements, block.statements.len() as int) + "}"@
}

/// The first `upto` statements of a program, each on a line of its own.
pub open spec fn show_program(statements: Seq<StatementView>, upto: int) -> Seq<char>
    decreases upto,
{
    if upto <= 0 || upto > statements.len() {
        Seq::empty()
    } else {
        show_program(statements, upto - 1) + show_statement(statements[upto - 1]) + "\n"@
    }
}

impl Identifier {
    /// The name.
    pub fn to_string(&self) -> (text: String)
        ensures
            text@ == self@.value,
    {
        self.value.clone()
    }
}

impl Expression {
    /// Appends the expression as source text to `text`.
    pub fn write_to(&self, text: &mut String)
        ensures
            final(text)@ == old(text)@ + show_expression(self@),
        decreases self, 1int,
    {
        push_str(text, "(");
        self.write_inner(text);
        push_str(text, ")");
        assert(text@ =~= old(text)@ + show_expression(self@));
    }

    /// Appends the expressions `items` as source text to `text`, with `, `
    /// between them.
    fn write_list(items: &Vec<Expression>, text: &mut String)
        ensures
            final(text)@ == old(text)@ + show_list(expressions_view(items@), items@.len() as int),
        decreases items, 0int,
    {
        let ghost shown = expressions_view(items@);
        let mut i: usize = 0;
        assert(text@ =~= old(text)@ + show_list(shown, 0));
        while i < items.len()
            invariant
                i <= items.len(),
                shown == expressions_view(items@),
                text@ == old(text)@ + show_list(shown, i as int),
            decreases items.len() - i,
        {
            proof {
                assert(decreases_to!(*items => items[i as int]));
            }
            if i > 0 {
                push_str(text, ", ");
            }
            items[i].write_to(text);
            i += 1;
            proof {
                let item = show_expression(shown[i - 1]);
                if i > 1 {
                    assert(text@ =~= old(text)@ + (show_list(shown, i - 1) + ", "@ + item));
                } else {
                    assert(show_list(shown, 0) =~= Seq::<char>::empty());
                    assert(text@ =~= old(text)@ + item);
                }
            }
        }
    }

    /// Appends the entries `entries` as source text to `text`.
    fn write_entries(entries: &Vec<(Expression, Expression)>, text: &mut String)
        ensures
            final(text)@ == old(text)@ + show_entries(
                entries_view(entries@),
                entries@.len() as int,
            ),
        decreases entries, 0int,
    {
        let ghost shown = entries_view(entries@);
        let mut i: usize = 0;
        assert(text@ =~= old(text)@ + show_entries(shown, 0));
        while i < entries.len()
            invariant
                i <= entries.len(),
                shown == entries_view(entries@),
                text@ == old(text)@ + show_entries(shown, i as int),
            decreases entries.len() - i,
        {
            proof {
                assert(decreases_to!(*entries => entries[i as int]));
                assert(decreases_to!(entries[i as int] => entries[i as int].0));
                assert(decreases_to!(entries[i as int] => entries[i as int].1));
            }
            if i > 0 {
                push_str(text, ", ");
            }
            entries[i].0.write_to(text);
            push_str(text, ": ");
            entries[i].1.write_to(text);
            i += 1;
            proof {
                let key = show_expression(shown[i - 1].0);
                let value = show_expression(shown[i - 1].1);
                if i > 1 {
                    assert(text@ =~= old(text)@ + (show_entries(shown, i - 1) + ", "@ + key + ": "@
                        + value));
                } else {
                    assert(show_entries(shown, 0) =~= Seq::<char>::empty());
                    assert(text@ =~= old(text)@ + (key + ": "@ + value));
                }
            }
        }
    }

    /// Appends the names `names` to `text`, with `, ` between them.
    fn write_names(names: &Vec<Identifier>, text: &mut String)
        ensures
            final(text)@ == old(text)@ + show_names(identifiers_view(names@), names@.len() as int),
    {
        let ghost shown = identifiers_view(names@);
        let mut i: usize = 0;
        assert(text@ =~= old(text)@ + show_names(shown, 0));
        while i < names.len()
            invariant
                i <= names.len(),
                shown == identifiers_view(names@),
                text@ == old(text)@ + show_names(shown, i as int),
            decreases names.len() - i,
        {
            if i > 0 {
                push_str(text, ", ");
            }
            push_str(text, names[i].value.as_str());
            i += 1;
            proof {
                let item = shown[i - 1].value;
                if i > 1 {
                    assert(text@ =~= old(text)@ + (show_names(shown, i - 1) + ", "@ + item));
                } else {
                    assert(show_names(shown, 0) =~= Seq::<char>::empty());
                    assert(text@ =~= old(text)@ + item);
                }
            }
        }
    }

    /// Appends the expression as source text, without parentheses around
    /// it, to `text`.
    #[verifier::rlimit(100)]
    #[verifier::spinoff_prover]
    fn write_inner(&self, text: &mut String)
        ensures
            final(text)@ == old(text)@ + show_inner(self@),
        decreases self, 0int,
    {
        proof {
            lemma_model_sequences(*self);
        }
        match self {
            Expression::Identifier(name) => {
                push_str(text, name.value.as_str());
            },
            Expression::Integer { value, .. } => {
                push_integer(text, *value);
            },
            Expression::Boolean { value, .. } => {
                if *value {
                    push_str(text, "true");
                } else {
                    push_str(text, "false");
                }
            },
            Expression::String { value, .. } => {
                push_str(text, "\"");
                push_str(text, value.as_str());
                push_str(text, "\"");
                assert(text@ =~= old(text)@ + ("\""@ + value@ + "\""@));
            },
            Expression::Null { .. } => {
                push_str(text, "null");
            },
            Expression::Prefix { operator, operand, .. } => {
                push_str(text, operator.symbol());
                operand.write_to(text);
                assert(text@ =~= old(text)@ + (operator.spec_symbol()@ + show_expression(
                    operand.model(),
                )));
            },
            Expression::Infix { left, operator, right } => {
                left.write_to(text);
                push_str(text, " ");
                push_str(text, operator.symbol());
                push_str(text, " ");
                right.write_to(text);
                assert(text@ =~= old(text)@ + (show_expression(left.model()) + " "@
                    + operator.spec_symbol()@ + " "@ + show_expression(right.model())));
            },
            Expression::If { condition, consequence, alternative, .. } => {
                push_str(text, "if ");
                condition.write_to(text);
                push_str(text, " ");
                consequence.write_to(text);
                let ghost head = "if "@ + show_expression(condition.model()) + " "@ + show_block(
                    consequence.model(),
                );
                assert(text@ =~= old(text)@ + head);
                match alternative {
                    Some(block) => {
                        push_str(text, " else ");
                        block.write_to(text);
                        assert(text@ =~= old(text)@ + (head + (" else "@ + show_block(
                            block.model(),
                        ))));
                    },
                    None => {
                        assert(text@ =~= old(text)@ + (head + Seq::<char>::empty()));
                    },
                }
            },
            Expression::Function { parameters, body, .. } => {
                push_str(text, "fn(");
                Expression::write_names(parameters, text);
                push_str(text, ") ");
                let block: &BlockStatement = body;
                block.write_to(text);
                assert(text@ =~= old(text)@ + ("fn("@ + show_names(
                    identifiers_view((*parameters)@),
                    parameters@.len() as int,
                ) + ") "@ + show_block(block.model())));
            },
            Expression::Call { function, arguments, .. } => {
                function.write_to(text);
                push_str(text, "(");
                Expression::write_list(arguments, text);
                push_str(text, ")");
                assert(text@ =~= old(text)@ + (show_expression(function.model()) + "("@ + show_list(
                    expressions_view(arguments@),
                    arguments@.len() as int,
                ) + ")"@));
            },
            Expression::Array { elements, .. } => {
                push_str(text, "[");
                Expression::write_list(elements, text);
                push_str(text, "]");
                assert(text@ =~= old(text)@ + ("["@ + show_list(
                    expressions_view(elements@),
                    elements@.len() as int,
                ) + "]"@));
            },
            Expression::Index { collection, index, .. } => {
                collection.write_to(text);
                push_str(text, "[");
                index.write_to(text);
                push_str(text, "]");
                assert(text@ =~= old(text)@ + (show_expression(collection.model()) + "["@
                    + show_expression(index.model()) + "]"@));
            },
            Expression::Hash { entries, .. } => {
                push_str(text, "{");
                Expression::write_entries(entries, text);
                push_str(text, "}");
                assert(text@ =~= old(text)@ + ("{"@ + show_entries(
                    entries_view(entries@),
                    entries@.len() as int,
                ) + "}"@));
            },
        }
    }

    /// The expression as source text, every expression in parentheses of
    /// its own.
    pub fn to_string(&self) -> (text: String)
        ensures
            text@ == show_expression(self@),
    {
        let mut text = String::new();
        self.write_to(&mut text);
        assert(Seq::<char>::empty() + show_expression(self@) =~= show_expression(self@));
        text
    }
}

impl Statement {
    /// Appends the statement as source text to `text`.
    pub fn write_to(&self, text: &mut String)
        ensures
            final(text)@ == old(text)@ + show_statement(self@),
        decreases self, 0int,
    {
        match self {
            Statement::Let { name, value, .. } => {
                push_str(text, "let ");
                push_str(text, name.value.as_str());
                push_str(text, " = ");
                value.write_to(text);
                push_str(text, ";");
                assert(text@ =~= old(text)@ + ("let "@ + name.value@ + " = "@ + show_expression(
                    value.model(),
                ) + ";"@));
            },
            Statement::Return { value, .. } => {
                push_str(text, "return ");
                value.write_to(text);
                push_str(text, ";");
                assert(text@ =~= old(text)@ + ("return "@ + show_expression(value.model()) + ";"@));
            },
            Statement::Expression(value) => {
                value.write_to(text);
                push_str(text, ";");
                assert(text@ =~= old(text)@ + (show_expression(value.model()) + ";"@));
            },
        }
    }

    /// The statement as source text, with the semicolon that ends it.
    pub fn to_string(&self) -> (text: String)
        ensures
            text@ == show_statement(self@),
    {
        let mut text = String::new();
        self.write_to(&mut text);
        assert(Seq::<char>::empty() + show_statement(self@) =~= show_statement(self@));
        text
    }
}

impl BlockStatement {
    /// Appends the block as source text to `text`.
    pub fn write_to(&self, text: &mut String)
        ensures
            final(text)@ == old(text)@ + show_block(self@),
        decreases self, 0int,
    {
        proof {
            lemma_block_statements(*self);
        }
        let ghost shown = statements_view(self.statements@);
        push_str(text, "{\n");
        let mut i: usize = 0;
        assert(text@ =~= old(text)@ + "{\n"@ + show_lines(shown, 0));
        while i < self.statements.len()
            invariant
                i <= self.statements.len(),
                shown == statements_view(self.statements@),
                decreases_to!(self => self.statements),
                text@ == old(text)@ + "{\n"@ + show_lines(shown, i as int),
            decreases self.statements.len() - i,
        {
            proof {
                assert(decreases_to!(self.statements => self.statements[i as int]));
            }
            push_str(text, "\t");
            self.statements[i].write_to(text);
            push_str(text, "\n");
            i += 1;
            proof {
                assert(text@ =~= old(text)@ + "{\n"@ + (show_lines(shown, i - 1) + "\t"@
                    + show_statement(shown[i - 1]) + "\n"@));
            }
        }
        push_str(text, "}");
        assert(text@ =~= old(text)@ + ("{\n"@ + show_lines(shown, shown.len() as int) + "}"@));
    }

    /// The block as source text: its statements between braces.
    pub fn to_string(&self) -> (text: String)
        ensures
            text@ == show_block(self@),
    {
        let mut text = String::new();
        self.write_to(&mut text);
        assert(Seq::<char>::empty() + show_block(self@) =~= show_block(self@));
        text
    }
}

impl Program {
    /// The program as source text, each statement on a line of its own.
    pub fn to_string(&self) -> (text: String)
        ensures
            text@ == show_program(self@.statements, self@.statements.len() as int),
    {
        let ghost shown = statements_view(self.statements@);
        let mut text = String::new();
        let mut i: usize = 0;
        assert(text@ =~= show_program(shown, 0));
        while i < self.statements.len()
            invariant
                i <= self.statements.len(),
                shown == statements_view(self.statements@),
                text@ == show_program(shown, i as int),
            decreases self.statements.len() - i,
        {
            self.statements[i].write_to(&mut text);
            push_str(&mut text, "\n");
            i += 1;
        }
        text
    }
}

} // verus!
