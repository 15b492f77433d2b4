use crate::ast::InfixOperator;
use crate::object::Object;
use crate::object::ObjectView;
use crate::token::Span;
use vstd::prelude::*;

verus! {

/// One instruction of the stack machine.
#[derive(Debug, PartialEq, Eq)]
#[allow(inconsistent_fields)]
pub enum Op {
    /// Push the constant at the given index onto the stack.
    Constant(usize),
    True(Span),
    False(Span),
    Null(Span),
    Add,
    Sub,
    Mul,
    Div,
    Eq,
    Neq,
    GT,
    Neg(Span),
    Not(Span),
    Pop,
    JumpIfNot(usize),
    Jump(usize),
    Bind(String),
    Get { name: String, span: Span },
    Array { size: usize, span: Span },
    Hash { size: usize, span: Span },
    Index(Span),
    Call { call_span: Span, args_span: Span },
    ReturnValue,
    Return,
}

/// The mathematical value of an [`Op`].
#[allow(inconsistent_fields)]
pub enum OpView {
    Constant(usize),
    True(Span),
    False(Span),
    Null(Span),
    Add,
    Sub,
    Mul,
    Div,
    Eq,
    Neq,
    GT,
    Neg(Span),
    Not(Span),
    Pop,
    JumpIfNot(usize),
    Jump(usize),
    Bind(Seq<char>),
    Get { name: Seq<char>, span: Span },
    Array { size: usize, span: Span },
    Hash { size: usize, span: Span },
    Index(Span),
    Call { call_span: Span, args_span: Span },
    ReturnValue,
    Return,
}

impl View for Op {
    type V = OpView;

    open spec fn view(&self) -> OpView {
        match self {
            Op::Constant(i) => OpView::Constant(*i),
            Op::True(span) => OpView::True(*span),
            Op::False(span) => OpView::False(*span),
            Op::Null(span) => OpView::Null(*span),
            Op::Add => OpView::Add,
            Op::Sub => OpView::Sub,
            Op::Mul => OpView::Mul,
            Op::Div => OpView::Div,
            Op::Eq => OpView::Eq,
            Op::Neq => OpView::Neq,
            Op::GT => OpView::GT,
            Op::Neg(span) => OpView::Neg(*span),
            Op::Not(span) => OpView::Not(*span),
            Op::Pop => OpView::Pop,
            Op::JumpIfNot(target) => OpView::JumpIfNot(*target),
            Op::Jump(target) => OpView::Jump(*target),
            Op::Bind(name) => OpView::Bind(name@),
            Op::Get { name, span } => OpView::Get { name: name@, span: *span },
            Op::Array { size, span } => OpView::Array { size: *size, span: *span },
            Op::Hash { size, span } => OpView::Hash { size: *size, span: *span },
            Op::Index(span) => OpView::Index(*span),
            Op::Call { call_span, args_span } => OpView::Call {
                call_span: *call_span,
                args_span: *args_span,
            },
            Op::ReturnValue => OpView::ReturnValue,
            Op::Return => OpView::Return,
        }
    }
}

impl Clone for Op {
    fn clone(&self) -> (copy: Self)
        ensures
            copy@ == self@,
    {
        match self {
            Op::Constant(i) => Op::Constant(*i),
            Op::True(span) => Op::True(*span),
            Op::False(span) => Op::False(*span),
            Op::Null(span) => Op::Null(*span),
            Op::Add => Op::Add,
            Op::Sub => Op::Sub,
            Op::Mul => Op::Mul,
            Op::Div => Op::Div,
            Op::Eq => Op::Eq,
            Op::Neq => Op::Neq,
            Op::GT => Op::GT,
            Op::Neg(span) => Op::Neg(*span),
            Op::Not(span) => Op::Not(*span),
            Op::Pop => Op::Pop,
            Op::JumpIfNot(target) => Op::JumpIfNot(*target),
            Op::Jump(target) => Op::Jump(*target),
            Op::Bind(name) => Op::Bind(name.clone()),
            Op::Get { name, span } => Op::Get { name: name.clone(), span: *span },
            Op::Array { size, span } => Op::Array { size: *size, span: *span },
            Op::Hash { size, span } => Op::Hash { size: *size, span: *span },
            Op::Index(span) => Op::Index(*span),
            Op::Call { call_span, args_span } => Op::Call {
                call_span: *call_span,
                args_span: *args_span,
            },
            Op::ReturnValue => Op::ReturnValue,
            Op::Return => Op::Return,
        }
    }
}

/// The values of a sequence of instructions.
pub open spec fn ops_view(ops: Seq<Op>) -> Seq<OpView> {
    Seq::new(ops.len(), |i: int| ops[i]@)
}

/// The instruction that carries out a binary operator. `<` has none of its
/// own: it is `>` with the operands exchanged.
pub open spec fn op_of_infix(operator: InfixOperator) -> OpView {
    match operator {
        InfixOperator::Add => OpView::Add,
        InfixOperator::Sub => OpView::Sub,
        InfixOperator::Mul => OpView::Mul,
        InfixOperator::Div => OpView::Div,
        InfixOperator::Eq => OpView::Eq,
        InfixOperator::Neq => OpView::Neq,
        InfixOperator::LT | InfixOperator::GT => OpView::GT,
    }
}

/// The binary operator that an instruction carries out, if it is one.
pub open spec fn infix_of_op(op: OpView) -> Option<InfixOperator> {
    match op {
        OpView::Add => Some(InfixOperator::Add),
        OpView::Sub => Some(InfixOperator::Sub),
        OpView::Mul => Some(InfixOperator::Mul),
        OpView::Div => Some(InfixOperator::Div),
        OpView::Eq => Some(InfixOperator::Eq),
        OpView::Neq => Some(InfixOperator::Neq),
        OpView::GT => Some(InfixOperator::GT),
        _ => None,
    }
}

impl Op {
    /// The instruction that carries out `operator`.
    pub fn from_infix(operator: InfixOperator) -> (op: Op)
        ensures
            op@ == op_of_infix(operator),
    {
        match operator {
            InfixOperator::Add => Op::Add,
            InfixOperator::Sub => Op::Sub,
            InfixOperator::Mul => Op::Mul,
            InfixOperator::Div => Op::Div,
            InfixOperator::Eq => Op::Eq,
            InfixOperator::Neq => Op::Neq,
            InfixOperator::LT | InfixOperator::GT => Op::GT,
        }
    }

    /// The binary operator that the instruction carries out, if it is one.
    pub fn infix(&self) -> (operator: Option<InfixOperator>)
        ensures
            operator == infix_of_op(self@),
    {
        match self {
            Op::Add => Some(InfixOperator::Add),
            Op::Sub => Some(InfixOperator::Sub),
            Op::Mul => Some(InfixOperator::Mul),
            Op::Div => Some(InfixOperator::Div),
            Op::Eq => Some(InfixOperator::Eq),
            Op::Neq => Some(InfixOperator::Neq),
            Op::GT => Some(InfixOperator::GT),
            _ => None,
        }
    }
}

/// A runtime value together with the source range it came from.
#[derive(Debug)]
pub struct SpannedObject {
    pub object: Object,
    pub span: Span,
}

/// The mathematical value of a [`SpannedObject`].
pub struct SpannedObjectView {
    pub object: ObjectView,
    pub span: Span,
}

impl View for SpannedObject {
    type V = SpannedObjectView;

    open spec fn view(&self) -> SpannedObjectView {
        SpannedObjectView { object: self.object@, span: self.span }
    }
}

impl Clone for SpannedObject {
    fn clone(&self) -> (copy: Self)
        ensures
            copy@ == self@,
    {
        SpannedObject { object: self.object.clone(), span: self.span }
    }
}

/// The values of a sequence of spanned objects.
pub open spec fn spanned_view(items: Seq<SpannedObject>) -> Seq<SpannedObjectView> {
    Seq::new(items.len(), |i: int| items[i]@)
}

/// A compiled program: the instructions of its top level and the constants
/// that they refer to.
#[derive(Debug)]
pub struct Program {
    pub ops: Vec<Op>,
    pub constants: Vec<SpannedObject>,
}

/// The mathematical value of a compiled [`Program`].
pub struct ProgramView {
    pub ops: Seq<OpView>,
    pub constants: Seq<SpannedObjectView>,
}

impl View for Program {
    type V = ProgramView;

    open spec fn view(&self) -> ProgramView {
        ProgramView { ops: ops_view(self.ops@), constants: spanned_view(self.constants@) }
    }
}

impl Default for Program {
    fn default() -> (program: Self)
        ensures
            program@.ops.len() == 0,
            program@.constants.len() == 0,
    {
        Program { ops: Vec::new(), constants: Vec::new() }
    }
}

} // verus!
