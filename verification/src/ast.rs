use crate::token::Span;
use crate::token::Token;
use crate::token::TokenView;
use std::rc::Rc;
use vstd::prelude::*;

pub mod copy;
pub mod display;

verus! {

/// The binary operators of the language.
#[derive(Clone, Copy, Debug, PartialEq, Eq, Structural)]
pub enum InfixOperator {
    Add,
    Sub,
    Mul,
    Div,
    Eq,
    Neq,
    LT,
    GT,
}

/// The unary operators of the language.
#[derive(Clone, Copy, Debug, PartialEq, Eq, Structural)]
pub enum PrefixOperator {
    Not,
    Neg,
}

/// A name, with the token it was read from.
#[derive(Debug)]
pub struct Identifier {
    pub token: Token,
    pub value: String,
}

/// The mathematical value of an [`Identifier`].
pub struct IdentifierView {
    pub token: TokenView,
    pub value: Seq<char>,
}

impl View for Identifier {
    type V = IdentifierView;

    open spec fn view(&self) -> IdentifierView {
        IdentifierView { token: self.token@, value: self.value@ }
    }
}

impl Clone for Identifier {
    fn clone(&self) -> (copy: Self)
        ensures
            copy@ == self@,
    {
        Identifier { token: self.token.clone(), value: self.value.clone() }
    }
}

/// An expression of the language, one variant per syntactic form.
#[derive(Debug)]
#[allow(inconsistent_fields)]
pub enum Expression {
    Identifier(Identifier),
    Integer { span: Span, value: i64 },
    Boolean { span: Span, value: bool },
    String { span: Span, value: String },
    Null { span: Span },
    Prefix { op_span: Span, operator: PrefixOperator, operand: Box<Expression> },
    Infix { left: Box<Expression>, operator: InfixOperator, right: Box<Expression> },
    If {
        if_span: Span,
        condition: Box<Expression>,
        consequence: BlockStatement,
        alternative: Option<BlockStatement>,
    },
    Function { fn_span: Span, parameters: Rc<Vec<Identifier>>, body: Rc<BlockStatement> },
    Call { function: Box<Expression>, open_span: Span, arguments: Vec<Expression>, close_span: Span },
    Array { open: Span, elements: Vec<Expression>, close: Span },
    Index { collection: Box<Expression>, index: Box<Expression>, close_span: Span },
    Hash { open: Span, entries: Vec<(Expression, Expression)>, close: Span },
}

/// A brace-delimited list of statements.
#[derive(Debug)]
pub struct BlockStatement {
    pub open: Span,
    pub statements: Vec<Statement>,
    pub close: Span,
}

/// A statement of the language.
#[derive(Debug)]
pub enum Statement {
    Let { let_span: Span, name: Identifier, value: Expression },
    Return { return_span: Span, value: Expression },
    Expression(Expression),
}

/// A whole program: its statements in source order.
#[derive(Debug)]
pub struct Program {
    pub statements: Vec<Statement>,
}

/// The mathematical value of an [`Expression`].
#[allow(inconsistent_fields)]
pub enum ExpressionView {
    Identifier(IdentifierView),
    Integer { span: Span, value: i64 },
    Boolean { span: Span, value: bool },
    String { span: Span, value: Seq<char> },
    Null { span: Span },
    Prefix { op_span: Span, operator: PrefixOperator, operand: Box<ExpressionView> },
    Infix { left: Box<ExpressionView>, operator: InfixOperator, right: Box<ExpressionView> },
    If {
        if_span: Span,
        condition: Box<ExpressionView>,
        consequence: BlockView,
        alternative: Option<BlockView>,
    },
    Function { fn_span: Span, parameters: Seq<IdentifierView>, body: BlockView },
    Call {
        function: Box<ExpressionView>,
        open_span: Span,
        arguments: Seq<ExpressionView>,
        close_span: Span,
    },
    Array { open: Span, elements: Seq<ExpressionView>, close: Span },
    Index { collection: Box<ExpressionView>, index: Box<ExpressionView>, close_span: Span },
    Hash { open: Span, entries: Seq<(ExpressionView, ExpressionView)>, close: Span },
}

/// The mathematical value of a [`BlockStatement`].
pub struct BlockView {
    pub open: Span,
    pub statements: Seq<StatementView>,
    pub close: Span,
}

/// The mathematical value of a [`Statement`].
pub enum StatementView {
    Let { let_span: Span, name: IdentifierView, value: ExpressionView },
    Return { return_span: Span, value: ExpressionView },
    Expression(ExpressionView),
}

/// The mathematical value of a [`Program`].
pub struct ProgramView {
    pub statements: Seq<StatementView>,
}

/// The values of a sequence of identifiers.
pub open spec fn identifiers_view(names: Seq<Identifier>) -> Seq<IdentifierView> {
    Seq::new(names.len(), |i: int| names[i]@)
}

/// The values of a sequence of expressions.
pub open spec fn expressions_view(items: Seq<Expression>) -> Seq<ExpressionView> {
    Seq::new(items.len(), |i: int| items[i].model())
}

/// The values of a sequence of key and value expressions.
pub open spec fn entries_view(items: Seq<(Expression, Expression)>) -> Seq<
    (ExpressionView, ExpressionView),
> {
    Seq::new(items.len(), |i: int| (items[i].0.model(), items[i].1.model()))
}

/// The values of a sequence of statements.
pub open spec fn statements_view(items: Seq<Statement>) -> Seq<StatementView> {
    Seq::new(items.len(), |i: int| items[i].model())
}

impl Expression {
    /// The mathematical value of the expression.
    pub open spec fn model(self) -> ExpressionView
        decreases self,
    {
        match self {
            Expression::Identifier(name) => ExpressionView::Identifier(name@),
            Expression::Integer { span, value } => ExpressionView::Integer { span, value },
            Expression::Boolean { span, value } => ExpressionView::Boolean { span, value },
            Expression::String { span, value } => ExpressionView::String { span, value: value@ },
            Expression::Null { span } => ExpressionView::Null { span },
            Expression::Prefix { op_span, operator, operand } => ExpressionView::Prefix {
                op_span,
                operator,
                operand: Box::new((*operand).model()),
            },
            Expression::Infix { left, operator, right } => ExpressionView::Infix {
                left: Box::new((*left).model()),
                operator,
                right: Box::new((*right).model()),
            },
            Expression::If { if_span, condition, consequence, alternative } => ExpressionView::If {
                if_span,
                condition: Box::new((*condition).model()),
                consequence: consequence.model(),
                alternative: match alternative {
                    Some(block) => Some(block.model()),
                    None => None,
                },
            },
            Expression::Function { fn_span, parameters, body } => ExpressionView::Function {
                fn_span,
                parameters: identifiers_view((*parameters)@),
                body: (*body).model(),
            },
            Expression::Call { function, open_span, arguments, close_span } => ExpressionView::Call {
                function: Box::new((*function).model()),
                open_span,
                arguments: Seq::new(
                    arguments@.len(),
                    |i: int|
                        if 0 <= i < arguments@.len() {
                            arguments@[i].model()
                        } else {
                            ExpressionView::Null { span: open_span }
                        },
                ),
                close_span,
            },
            Expression::Array { open, elements, close } => ExpressionView::Array {
                open,
                elements: Seq::new(
                    elements@.len(),
                    |i: int|
                        if 0 <= i < elements@.len() {
                            elements@[i].model()
                        } else {
                            ExpressionView::Null { span: open }
                        },
                ),
                close,
            },
            Expression::Index { collection, index, close_span } => ExpressionView::Index {
                collection: Box::new((*collection).model()),
                index: Box::new((*index).model()),
                close_span,
            },
            Expression::Hash { open, entries, close } => ExpressionView::Hash {
                open,
                entries: Seq::new(
                    entries@.len(),
                    |i: int|
                        if 0 <= i < entries@.len() {
                            (entries@[i].0.model(), entries@[i].1.model())
                        } else {
                            (ExpressionView::Null { span: open }, ExpressionView::Null { span: open })
                        },
                ),
                close,
            },
        }
    }
}

impl BlockStatement {
    /// The mathematical value of the block.
    pub open spec fn model(self) -> BlockView
        decreases self,
    {
        BlockView {
            open: self.open,
            statements: Seq::new(
                self.statements@.len(),
                |i: int|
                    if 0 <= i < self.statements@.len() {
                        self.statements@[i].model()
                    } else {
                        StatementView::Expression(ExpressionView::Null { span: self.open })
                    },
            ),
            close: self.close,
        }
    }
}

impl Statement {
    /// The mathematical value of the statement.
    pub open spec fn model(self) -> StatementView
        decreases self,
    {
        match self {
            Statement::Let { let_span, name, value } => StatementView::Let {
                let_span,
                name: name@,
                value: value.model(),
            },
            Statement::Return { return_span, value } => StatementView::Return {
                return_span,
                value: value.model(),
            },
            Statement::Expression(value) => StatementView::Expression(value.model()),
        }
    }
}

impl View for Expression {
    type V = ExpressionView;

    open spec fn view(&self) -> ExpressionView {
        self.model()
    }
}

impl View for BlockStatement {
    type V = BlockView;

    open spec fn view(&self) -> BlockView {
        self.model()
    }
}

impl View for Statement {
    type V = StatementView;

    open spec fn view(&self) -> StatementView {
        self.model()
    }
}

impl View for Program {
    type V = ProgramView;

    open spec fn view(&self) -> ProgramView {
        ProgramView { statements: statements_view(self.statements@) }
    }
}

/// The sequence views used inside `model` are the element-wise views.
pub proof fn lemma_model_sequences(e: Expression)
    ensures
        match e {
            Expression::Call { arguments, .. } => e.model() matches ExpressionView::Call {
                arguments: values,
                ..
            } && values == expressions_view(arguments@),
            Expression::Array { elements, .. } => e.model() matches ExpressionView::Array {
                elements: values,
                ..
            } && values == expressions_view(elements@),
            Expression::Hash { entries, .. } => e.model() matches ExpressionView::Hash {
                entries: values,
                ..
            } && values == entries_view(entries@),
            _ => true,
        },
{
    match e {
        Expression::Call { arguments, .. } => {
            assert(e.model()->Call_arguments =~= expressions_view(arguments@));
        },
        Expression::Array { elements, .. } => {
            assert(e.model()->Array_elements =~= expressions_view(elements@));
        },
        Expression::Hash { entries, .. } => {
            assert(e.model()->Hash_entries =~= entries_view(entries@));
        },
        _ => {},
    }
}

/// The statements of a block's value are the element-wise views.
pub proof fn lemma_block_statements(block: BlockStatement)
    ensures
        block.model().statements == statements_view(block.statements@),
        block.model().open == block.open,
        block.model().close == block.close,
{
    assert(block.model().statements =~= statements_view(block.statements@));
}

impl IdentifierView {
    /// The source range of the identifier.
    pub open spec fn span(self) -> Span {
        self.token.span
    }
}

impl BlockView {
    /// The source range of the block, from its opening to its closing brace.
    pub open spec fn span(self) -> Span {
        Span { start: self.open.start, end: self.close.end }
    }
}

impl ExpressionView {
    /// The source range of the expression.
    pub open spec fn span(self) -> Span
        decreases self,
    {
        match self {
            ExpressionView::Identifier(name) => name.span(),
            ExpressionView::Integer { span, .. } => span,
            ExpressionView::Boolean { span, .. } => span,
            ExpressionView::String { span, .. } => span,
            ExpressionView::Null { span } => span,
            ExpressionView::Prefix { op_span, operand, .. } => Span {
                start: op_span.start,
                end: operand.span().end,
            },
            ExpressionView::Infix { left, right, .. } => Span {
                start: left.span().start,
                end: right.span().end,
            },
            ExpressionView::If { if_span, consequence, alternative, .. } => Span {
                start: if_span.start,
                end: match alternative {
                    Some(block) => block.span().end,
                    None => consequence.span().end,
                },
            },
            ExpressionView::Function { fn_span, body, .. } => Span {
                start: fn_span.start,
                end: body.span().end,
            },
            ExpressionView::Call { function, close_span, .. } => Span {
                start: function.span().start,
                end: close_span.end,
            },
            ExpressionView::Array { open, close, .. } => Span { start: open.start, end: close.end },
            ExpressionView::Index { collection, close_span, .. } => Span {
                start: collection.span().start,
                end: close_span.end,
            },
            ExpressionView::Hash { open, close, .. } => Span { start: open.start, end: close.end },
        }
    }
}

impl StatementView {
    /// The source range of the statement.
    pub open spec fn span(self) -> Span {
        match self {
            StatementView::Let { let_span, value, .. } => Span {
                start: let_span.start,
                end: value.span().end,
            },
            StatementView::Return { return_span, value } => Span {
                start: return_span.start,
                end: value.span().end,
            },
            StatementView::Expression(value) => value.span(),
        }
    }
}

impl ProgramView {
    /// The source range of the program: from the start of its first statement
    /// to the end of its last; `0..0` for the empty program.
    pub open spec fn span(self) -> Span {
        if self.statements.len() == 0 {
            Span { start: 0, end: 0 }
        } else {
            Span { start: self.statements.first().span().start, end: self.statements.last().span().end }
        }
    }
}

/// A syntax tree node: it knows the source range it was read from.
pub trait Node {
    /// The node's source range as a mathematical value.
    spec fn source_span(&self) -> Span;

    /// The node's source range.
    fn span(&self) -> (span: Span)
        ensures
            span == self.source_span(),
    ;
}

impl Identifier {
    /// The source range of the identifier.
    pub fn span(&self) -> (span: Span)
        ensures
            span == self@.span(),
    {
        self.token.span
    }
}

impl BlockStatement {
    /// The source range of the block, from its opening to its closing brace.
    pub fn span(&self) -> (span: Span)
        ensures
            span == self@.span(),
    {
        Span { start: self.open.start, end: self.close.end }
    }
}

impl Expression {
    /// The source range of the expression.
    pub fn span(&self) -> (span: Span)
        ensures
            span == self@.span(),
        decreases self,
    {
        match self {
            Expression::Identifier(name) => name.span(),
            Expression::Integer { span, .. } => *span,
            Expression::Boolean { span, .. } => *span,
            Expression::String { span, .. } => *span,
            Expression::Null { span } => *span,
            Expression::Prefix { op_span, operand, .. } => Span {
                start: op_span.start,
                end: operand.span().end,
            },
            Expression::Infix { left, right, .. } => Span {
                start: left.span().start,
                end: right.span().end,
            },
            Expression::If { if_span, consequence, alternative, .. } => Span {
                start: if_span.start,
                end: match alternative {
                    Some(block) => block.span().end,
                    None => consequence.span().end,
                },
            },
            Expression::Function { fn_span, body, .. } => Span {
                start: fn_span.start,
                end: body.span().end,
            },
            Expression::Call { function, close_span, .. } => Span {
                start: function.span().start,
                end: close_span.end,
            },
            Expression::Array { open, close, .. } => Span { start: open.start, end: close.end },
            Expression::Index { collection, close_span, .. } => Span {
                start: collection.span().start,
                end: close_span.end,
            },
            Expression::Hash { open, close, .. } => Span { start: open.start, end: close.end },
        }
    }
}

impl Statement {
    /// The source range of the statement.
    pub fn span(&self) -> (span: Span)
        ensures
            span == self@.span(),
    {
        match self {
            Statement::Let { let_span, value, .. } => Span {
                start: let_span.start,
                end: value.span().end,
            },
            Statement::Return { return_span, value } => Span {
                start: return_span.start,
                end: value.span().end,
            },
            Statement::Expression(value) => value.span(),
        }
    }
}

impl Program {
    /// The source range of the program: from the start of its first statement
    /// to the end of its last; `0..0` for the empty program.
    pub fn span(&self) -> (span: Span)
        ensures
            span == self@.span(),
    {
        let n: usize = self.statements.len();
        if n == 0 {
            Span { start: 0, end: 0 }
        } else {
            Span { start: self.statements[0].span().start, end: self.statements[n - 1].span().end }
        }
    }
}

impl Node for Identifier {
    open spec fn source_span(&self) -> Span {
        self@.span()
    }

    fn span(&self) -> (span: Span) {
        Identifier::span(self)
    }
}

impl Node for BlockStatement {
    open spec fn source_span(&self) -> Span {
        self@.span()
    }

    fn span(&self) -> (span: Span) {
        BlockStatement::span(self)
    }
}

impl Node for Expression {
    open spec fn source_span(&self) -> Span {
        self@.span()
    }

    fn span(&self) -> (span: Span) {
        Expression::span(self)
    }
}

impl Node for Statement {
    open spec fn source_span(&self) -> Span {
        self@.span()
    }

    fn span(&self) -> (span: Span) {
        Statement::span(self)
    }
}

impl Node for Program {
    open spec fn source_span(&self) -> Span {
        self@.span()
    }

    fn span(&self) -> (span: Span) {
        Program::span(self)
    }
}

} // verus!
