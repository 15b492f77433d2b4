use crate::ast::BlockStatement;
use crate::ast::BlockView;
use crate::ast::entries_view;
use crate::ast::Expression;
use crate::ast::expressions_view;
use crate::ast::ExpressionView;
use crate::ast::Identifier;
use crate::ast::identifiers_view;
use crate::ast::IdentifierView;
use crate::ast::InfixOperator;
use crate::ast::lemma_block_statements;
use crate::ast::lemma_model_sequences;
use crate::ast::PrefixOperator;
use crate::ast::Program as Ast;
use crate::ast::ProgramView as AstView;
use crate::ast::Statement;
use crate::ast::statements_view;
use crate::ast::StatementView;
use crate::code::Op;
use crate::code::op_of_infix;
use crate::code::ops_view;
use crate::code::OpView;
use crate::code::Program;
use crate::code::ProgramView;
use crate::code::spanned_view;
use crate::code::SpannedObject;
use crate::code::SpannedObjectView;
use crate::intrinsic::intrinsic_named;
use crate::intrinsic::lookup_intrinsic;
use crate::object::CompiledFunction;
use crate::object::CompiledFunctionView;
use crate::object::lemma_compiled_model;
use crate::object::Object;
use crate::object::ObjectView;
use crate::token::Span;
use std::rc::Rc;
use vstd::prelude::*;

verus! {

/// The three forms of a statement.
#[derive(Clone, Copy, Debug, PartialEq, Eq, Structural)]
pub enum StatementKind {
    Let,
    Return,
    Expression,
}

/// The form of a statement.
pub open spec fn kind_of(statement: StatementView) -> StatementKind {
    match statement {
        StatementView::Let { .. } => StatementKind::Let,
        StatementView::Return { .. } => StatementKind::Return,
        StatementView::Expression(_) => StatementKind::Expression,
    }
}

/// The instructions of one scope as far as they are written, and the
/// constants of the whole program.
pub struct Emitted {
    pub ops: Seq<OpView>,
    pub constants: Seq<SpannedObjectView>,
}

/// `op` put at the end of the instructions.
pub open spec fn emit(state: Emitted, op: OpView) -> Emitted {
    Emitted { ops: state.ops.push(op), constants: state.constants }
}

/// The instruction at `at` replaced by `op`.
pub open spec fn patch(state: Emitted, at: int, op: OpView) -> Emitted {
    Emitted { ops: state.ops.update(at, op), constants: state.constants }
}

/// The last instruction taken away.
pub open spec fn unemit(state: Emitted) -> Emitted {
    Emitted { ops: state.ops.drop_last(), constants: state.constants }
}

/// `object` put at the end of the constants, and the instruction that pushes it.
pub open spec fn emit_constant(state: Emitted, object: ObjectView, span: Span) -> Emitted {
    Emitted {
        ops: state.ops.push(OpView::Constant(state.constants.len() as usize)),
        constants: state.constants.push(SpannedObjectView { object, span }),
    }
}

/// The names of a list of parameters.
pub open spec fn names_of(parameters: Seq<IdentifierView>) -> Seq<Seq<char>> {
    Seq::new(parameters.len(), |i: int| parameters[i].value)
}

/// How a function body or the top level ends: with the value of the last
/// statement where it is an expression or a `return`, else with `null`.
pub open spec fn finish_body(state: Emitted, last: Option<StatementKind>) -> Emitted {
    match last {
        Some(StatementKind::Expression) => emit(unemit(state), OpView::ReturnValue),
        Some(StatementKind::Return) => emit(state, OpView::ReturnValue),
        _ => emit(state, OpView::Return),
    }
}

/// How a branch of an `if` ends: the value of the last statement stays on
/// the stack where it is an expression, a `return` leaves the function, and
/// any other branch comes to `null`.
pub open spec fn finish_block(state: Emitted, last: Option<StatementKind>, span: Span) -> Emitted {
    match last {
        Some(StatementKind::Expression) => unemit(state),
        Some(StatementKind::Return) => emit(state, OpView::ReturnValue),
        _ => emit(state, OpView::Null(span)),
    }
}

/// The instructions for `expr`, written after those of `state`. `hint` is
/// the name that a `let` is about to bind the value to.
pub open spec fn lower_expr(expr: ExpressionView, hint: Option<Seq<char>>, state: Emitted) -> Emitted
    decreases expr, 0int,
{
    match expr {
        ExpressionView::Integer { span, value } => emit_constant(
            state,
            ObjectView::Integer(value),
            span,
        ),
        ExpressionView::String { span, value } => emit_constant(
            state,
            ObjectView::String(value),
            span,
        ),
        ExpressionView::Boolean { span, value } => emit(
            state,
            if value {
                OpView::True(span)
            } else {
                OpView::False(span)
            },
        ),
        ExpressionView::Null { span } => emit(state, OpView::Null(span)),
        ExpressionView::Identifier(name) => emit(
            state,
            OpView::Get { name: name.value, span: name.span() },
        ),
        ExpressionView::Prefix { operator, operand, .. } => emit(
            lower_expr(*operand, None, state),
            match operator {
                PrefixOperator::Not => OpView::Not(expr.span()),
                PrefixOperator::Neg => OpView::Neg(expr.span()),
            },
        ),
        ExpressionView::Infix { left, operator, right } => emit(
            if operator == InfixOperator::LT {
                lower_expr(*left, None, lower_expr(*right, None, state))
            } else {
                lower_expr(*right, None, lower_expr(*left, None, state))
            },
            op_of_infix(operator),
        ),
        ExpressionView::If { condition, consequence, alternative, .. } => {
            let tested = lower_expr(*condition, None, state);
            let branch = tested.ops.len() as int;
            let taken = lower_block(consequence, emit(tested, OpView::JumpIfNot(0)));
            match alternative {
                Some(block) => {
                    let skip = taken.ops.len() as int;
                    let skipped = emit(taken, OpView::Jump(0));
                    let other = lower_block(
                        block,
                        patch(skipped, branch, OpView::JumpIfNot(skipped.ops.len() as usize)),
                    );
                    patch(other, skip, OpView::Jump(other.ops.len() as usize))
                },
                None => patch(taken, branch, OpView::JumpIfNot(taken.ops.len() as usize)),
            }
        },
        ExpressionView::Array { open, elements, close } => emit(
            lower_reversed(elements, elements.len() as int, state),
            OpView::Array { size: elements.len() as usize, span: open.spec_join(close) },
        ),
        ExpressionView::Hash { open, entries, close } => emit(
            lower_entries(entries, entries.len() as int, state),
            OpView::Hash { size: entries.len() as usize, span: open.spec_join(close) },
        ),
        ExpressionView::Index { collection, index, close_span } => emit(
            lower_expr(*index, None, lower_expr(*collection, None, state)),
            OpView::Index(collection.span().spec_join(close_span)),
        ),
        ExpressionView::Function { fn_span, parameters, body } => {
            let inner = lower_body(
                body.statements,
                Emitted { ops: Seq::empty(), constants: state.constants },
            );
            emit_constant(
                Emitted { ops: state.ops, constants: inner.constants },
                ObjectView::CompiledFunction(
                    Box::new(
                        CompiledFunctionView {
                            ops: inner.ops,
                            params: names_of(parameters),
                            this: hint,
                            captured: Seq::empty(),
                        },
                    ),
                ),
                fn_span.spec_join(body.span()),
            )
        },
        ExpressionView::Call { function, open_span, arguments, close_span } => emit(
            lower_callee(*function, arguments.len(), lower_arguments(arguments, 0, state)),
            OpView::Call {
                call_span: function.span().spec_join(close_span),
                args_span: open_span.spec_join(close_span),
            },
        ),
    }
}

/// The constant that stands for the built-in function `name` where it is
/// called with `count` arguments: a function without instructions that
/// has the name and as many parameters.
pub open spec fn intrinsic_marker(name: Seq<char>, count: nat) -> ObjectView {
    ObjectView::CompiledFunction(
        Box::new(
            CompiledFunctionView {
                ops: Seq::empty(),
                params: Seq::new(count, |i: int| Seq::<char>::empty()),
                this: Some(name),
                captured: Seq::empty(),
            },
        ),
    )
}

/// The instructions for what is called with `count` arguments: the name of
/// a built-in function stands for that function, whatever else is bound to
/// the name; any other expression is lowered as it is.
pub open spec fn lower_callee(function: ExpressionView, count: nat, state: Emitted) -> Emitted
    decreases function, 1int,
{
    match function {
        ExpressionView::Identifier(name) => if intrinsic_named(name.value) is Some {
            emit_constant(state, intrinsic_marker(name.value, count), function.span())
        } else {
            lower_expr(function, None, state)
        },
        _ => lower_expr(function, None, state),
    }
}

/// The instructions for `items[..upto]`, the last of them first.
pub open spec fn lower_reversed(items: Seq<ExpressionView>, upto: int, state: Emitted) -> Emitted
    decreases items, upto,
{
    if 0 < upto <= items.len() {
        lower_reversed(items, upto - 1, lower_expr(items[upto - 1], None, state))
    } else {
        state
    }
}

/// The instructions for `entries[..upto]`, the last of them first, and of
/// each entry the value before the key.
pub open spec fn lower_entries(
    entries: Seq<(ExpressionView, ExpressionView)>,
    upto: int,
    state: Emitted,
) -> Emitted
    decreases entries, upto,
{
    if 0 < upto <= entries.len() {
        lower_entries(
            entries,
            upto - 1,
            lower_expr(entries[upto - 1].0, None, lower_expr(entries[upto - 1].1, None, state)),
        )
    } else {
        state
    }
}

/// The instructions for `items[from..]`, in order.
pub open spec fn lower_arguments(items: Seq<ExpressionView>, from: int, state: Emitted) -> Emitted
    decreases items, items.len() - from,
{
    if 0 <= from < items.len() {
        lower_arguments(items, from + 1, lower_expr(items[from], None, state))
    } else {
        state
    }
}

/// The instructions for one statement: an expression is followed by `Pop`,
/// a `let` by `Bind`, and a `return` leaves its value on the stack.
pub open spec fn lower_statement(statement: StatementView, state: Emitted) -> Emitted
    decreases statement, 0int,
{
    match statement {
        StatementView::Expression(expr) => emit(lower_expr(expr, None, state), OpView::Pop),
        StatementView::Let { name, value, .. } => emit(
            lower_expr(value, Some(name.value), state),
            OpView::Bind(name.value),
        ),
        StatementView::Return { value, .. } => lower_expr(value, None, state),
    }
}

/// The instructions for `statements[from..]`, up to and with the first
/// `return`, and the form of the last statement that was lowered.
pub open spec fn lower_statements(
    statements: Seq<StatementView>,
    from: int,
    state: Emitted,
    last: Option<StatementKind>,
) -> (Emitted, Option<StatementKind>)
    decreases statements, statements.len() - from,
{
    if 0 <= from < statements.len() {
        let next = lower_statement(statements[from], state);
        let kind = kind_of(statements[from]);
        if kind == StatementKind::Return {
            (next, Some(kind))
        } else {
            lower_statements(statements, from + 1, next, Some(kind))
        }
    } else {
        (state, last)
    }
}

/// The instructions for a function body or the top level.
pub open spec fn lower_body(statements: Seq<StatementView>, state: Emitted) -> Emitted
    decreases statements, statements.len() + 1,
{
    let done = lower_statements(statements, 0, state, None);
    finish_body(done.0, done.1)
}

/// The instructions for a branch of an `if`.
pub open spec fn lower_block(block: BlockView, state: Emitted) -> Emitted
    decreases block, 0int,
{
    let done = lower_statements(block.statements, 0, state, None);
    finish_block(done.0, done.1, block.span())
}

/// The compiled form of `program`, given the constants of earlier programs:
/// the instructions of its body without the final return, and all constants.
pub open spec fn compiled(constants: Seq<SpannedObjectView>, program: AstView) -> ProgramView {
    let body = lower_body(program.statements, Emitted { ops: Seq::empty(), constants });
    ProgramView { ops: body.ops.drop_last(), constants: body.constants }
}

/// The instructions of one function body, or of the top level, while they
/// are written.
#[derive(Debug)]
pub struct Scope {
    pub ops: Vec<Op>,
}

/// A single-pass compiler from syntax trees to instructions.
#[derive(Debug)]
pub struct Compiler {
    pub constants: Vec<SpannedObject>,
    pub scopes: Vec<Scope>,
}

/// The mathematical value of a [`Compiler`].
pub struct CompilerView {
    pub constants: Seq<SpannedObjectView>,
    pub scopes: Seq<Seq<OpView>>,
}

impl View for Compiler {
    type V = CompilerView;

    open spec fn view(&self) -> CompilerView {
        CompilerView {
            constants: spanned_view(self.constants@),
            scopes: Seq::new(self.scopes@.len(), |i: int| ops_view(self.scopes@[i].ops@)),
        }
    }
}

impl CompilerView {
    /// The instructions of the innermost scope, and the constants.
    pub open spec fn current(self) -> Emitted {
        Emitted { ops: self.scopes.last(), constants: self.constants }
    }

    /// The compiler with `state` in place of the innermost scope and of the
    /// constants.
    pub open spec fn with_current(self, state: Emitted) -> CompilerView {
        CompilerView {
            constants: state.constants,
            scopes: self.scopes.drop_last().push(state.ops),
        }
    }
}

impl Default for Compiler {
    fn default() -> (compiler: Self)
        ensures
            compiler@.constants.len() == 0,
            compiler@.scopes.len() == 0,
    {
        Compiler { constants: Vec::new(), scopes: Vec::new() }
    }
}

impl Statement {
    /// The form of the statement.
    pub fn kind(&self) -> (kind: StatementKind)
        ensures
            kind == kind_of(self@),
    {
        match self {
            Statement::Let { .. } => StatementKind::Let,
            Statement::Return { .. } => StatementKind::Return,
            Statement::Expression(_) => StatementKind::Expression,
        }
    }
}

impl Compiler {
    /// The innermost scope.
    fn current_scope(&mut self) -> (scope: &mut Scope)
        requires
            old(self).scopes.len() > 0,
        ensures
            *scope == old(self).scopes@.last(),
            final(self).scopes@ == old(self).scopes@.update(
                old(self).scopes@.len() - 1,
                *final(scope),
            ),
            final(self).constants == old(self).constants,
    {
        let n: usize = self.scopes.len();
        &mut self.scopes[n - 1]
    }

    /// Puts `op` at the end of the innermost scope.
    fn emit(&mut self, op: Op)
        requires
            old(self).scopes.len() > 0,
        ensures
            final(self)@ == old(self)@.with_current(emit(old(self)@.current(), op@)),
            final(self).scopes.len() == old(self).scopes.len(),
    {
        let scope = self.current_scope();
        scope.ops.push(op);
        proof {
            let n = old(self).scopes@.len() - 1;
            assert(ops_view(self.scopes@[n].ops@) =~= ops_view(old(self).scopes@[n].ops@).push(op@));
            assert(self@.scopes =~= old(self)@.with_current(
                emit(old(self)@.current(), op@),
            ).scopes);
        }
    }

    /// Takes the last instruction of the innermost scope away.
    fn unemit(&mut self)
        requires
            old(self).scopes.len() > 0,
            old(self)@.current().ops.len() > 0,
        ensures
            final(self)@ == old(self)@.with_current(unemit(old(self)@.current())),
            final(self).scopes.len() == old(self).scopes.len(),
    {
        let scope = self.current_scope();
        let _ = scope.ops.pop();
        proof {
            let n = old(self).scopes@.len() - 1;
            assert(ops_view(self.scopes@[n].ops@) =~= ops_view(
                old(self).scopes@[n].ops@,
            ).drop_last());
            assert(self@.scopes =~= old(self)@.with_current(
                unemit(old(self)@.current()),
            ).scopes);
        }
    }

    /// Puts `op` in the place of the instruction at `at` of the innermost scope.
    fn patch(&mut self, at: usize, op: Op)
        requires
            old(self).scopes.len() > 0,
            at < old(self)@.current().ops.len(),
        ensures
            final(self)@ == old(self)@.with_current(patch(old(self)@.current(), at as int, op@)),
            final(self).scopes.len() == old(self).scopes.len(),
    {
        let scope = self.current_scope();
        scope.ops[at] = op;
        proof {
            let n = old(self).scopes@.len() - 1;
            assert(ops_view(self.scopes@[n].ops@) =~= ops_view(old(self).scopes@[n].ops@).update(
                at as int,
                op@,
            ));
            assert(self@.scopes =~= old(self)@.with_current(
                patch(old(self)@.current(), at as int, op@),
            ).scopes);
        }
    }

    /// The number of instructions in the innermost scope.
    fn position(&self) -> (at: usize)
        requires
            self.scopes.len() > 0,
        ensures
            at == self@.current().ops.len(),
    {
        self.scopes[self.scopes.len() - 1].ops.len()
    }

    /// Opens a scope for the body of a function.
    fn enter_scope(&mut self)
        ensures
            final(self)@ == (CompilerView {
                constants: old(self)@.constants,
                scopes: old(self)@.scopes.push(Seq::empty()),
            }),
            final(self).scopes.len() == old(self).scopes.len() + 1,
    {
        self.scopes.push(Scope { ops: Vec::new() });
        proof {
            assert(ops_view(self.scopes@.last().ops@) =~= Seq::empty());
            assert(self@.scopes =~= old(self)@.scopes.push(Seq::empty()));
        }
    }

    /// Closes the innermost scope and hands out its instructions.
    fn leave_scope(&mut self) -> (ops: Vec<Op>)
        requires
            old(self).scopes.len() > 0,
        ensures
            ops_view(ops@) == old(self)@.scopes.last(),
            final(self)@ == (CompilerView {
                constants: old(self)@.constants,
                scopes: old(self)@.scopes.drop_last(),
            }),
            final(self).scopes.len() == old(self).scopes.len() - 1,
    {
        let scope = self.scopes.pop().unwrap();
        proof {
            assert(self@.scopes =~= old(self)@.scopes.drop_last());
        }
        scope.ops
    }

    /// Puts `value` at the end of the constants, and the instruction that
    /// pushes it at the end of the innermost scope.
    fn add_constant(&mut self, value: Object, span: Span)
        requires
            old(self).scopes.len() > 0,
        ensures
            final(self)@ == old(self)@.with_current(
                emit_constant(old(self)@.current(), value@, span),
            ),
            final(self).scopes.len() == old(self).scopes.len(),
    {
        let index: usize = self.constants.len();
        let ghost before = self@;
        self.constants.push(SpannedObject { object: value, span });
        proof {
            assert(spanned_view(self.constants@) =~= before.constants.push(
                SpannedObjectView { object: value@, span },
            ));
            assert(self@.scopes =~= before.scopes);
        }
        let ghost middle = self@;
        self.emit(Op::Constant(index));
        proof {
            assert(self@.scopes =~= old(self)@.with_current(
                emit_constant(old(self)@.current(), value@, span),
            ).scopes);
        }
    }

    /// Compiles `program` and hands out its instructions together with all
    /// constants, those of programs compiled earlier included.
    pub fn compile(&mut self, program: Ast) -> (compiled_program: Program)
        ensures
            compiled_program@ == compiled(old(self)@.constants, program@),
            final(self)@.constants == compiled_program@.constants,
            final(self)@.scopes == old(self)@.scopes,
    {
        let ghost before = self@;
        self.enter_scope();
        let ghost entered = self@;
        assert(entered.current() == (Emitted { ops: Seq::empty(), constants: before.constants }));
        self.compile_statements(&program.statements);
        let mut ops = self.leave_scope();
        let _ = ops.pop();
        let mut constants: Vec<SpannedObject> = Vec::new();
        let mut i: usize = 0;
        while i < self.constants.len()
            invariant
                i <= self.constants.len(),
                constants@.len() == i,
                forall|j: int| 0 <= j < i ==> constants@[j]@ == self.constants@[j]@,
            decreases self.constants.len() - i,
        {
            constants.push(self.constants[i].clone());
            i += 1;
        }
        let result = Program { ops, constants };
        proof {
            let body = lower_body(
                program@.statements,
                Emitted { ops: Seq::empty(), constants: before.constants },
            );
            assert(spanned_view(constants@) =~= self@.constants);
            assert(ops_view(ops@) =~= body.ops.drop_last());
            assert(self@.scopes =~= before.scopes);
        }
        result
    }

    /// Compiles a list of statements, up to and with its first `return`, and
    /// says of which form the last compiled statement was.
    fn compile_sequence(&mut self, statements: &Vec<Statement>) -> (last: Option<StatementKind>)
        requires
            old(self).scopes.len() > 0,
        ensures
            ({
                let done = lower_statements(
                    statements_view(statements@),
                    0,
                    old(self)@.current(),
                    None,
                );
                &&& final(self)@ == old(self)@.with_current(done.0)
                &&& last == done.1
                &&& done.0.ops.len() >= old(self)@.current().ops.len()
                &&& last == Some(StatementKind::Expression) ==> done.0.ops.len() > old(
                    self,
                )@.current().ops.len()
            }),
            final(self).scopes.len() == old(self).scopes.len(),
        decreases statements, 0int,
    {
        let ghost all = statements_view(statements@);
        let ghost start = self@;
        let mut last: Option<StatementKind> = None;
        let mut i: usize = 0;
        proof {
            assert(start.with_current(start.current()).scopes =~= start.scopes);
        }
        while i < statements.len()
            invariant
                i <= statements.len(),
                all == statements_view(statements@),
                start == old(self)@,
                self.scopes.len() == old(self).scopes.len(),
                self.scopes.len() > 0,
                self@ == start.with_current(self@.current()),
                lower_statements(all, 0, start.current(), None) == lower_statements(
                    all,
                    i as int,
                    self@.current(),
                    last,
                ),
                self@.current().ops.len() >= start.current().ops.len(),
                last == Some(StatementKind::Expression) ==> self@.current().ops.len()
                    > start.current().ops.len(),
            decreases statements.len() - i,
        {
            proof {
                assert(decreases_to!(*statements => statements[i as int]));
            }
            let ghost before = self@;
            self.compile_statement(&statements[i]);
            proof {
                assert(self@.scopes =~= start.with_current(self@.current()).scopes);
            }
            let kind = statements[i].kind();
            last = Some(kind);
            if kind == StatementKind::Return {
                return last;
            }
            i += 1;
        }
        last
    }

    /// Compiles a function body or the top level.
    fn compile_statements(&mut self, statements: &Vec<Statement>)
        requires
            old(self).scopes.len() > 0,
        ensures
            final(self)@ == old(self)@.with_current(
                lower_body(statements_view(statements@), old(self)@.current()),
            ),
            final(self).scopes.len() == old(self).scopes.len(),
        decreases statements, 1int,
    {
        let ghost start = self@;
        let last = self.compile_sequence(statements);
        let ghost done = self@;
        match last {
            Some(StatementKind::Expression) => {
                self.unemit();
                self.emit(Op::ReturnValue);
            },
            Some(StatementKind::Return) => {
                self.emit(Op::ReturnValue);
            },
            _ => {
                self.emit(Op::Return);
            },
        }
        proof {
            assert(self@.scopes =~= start.with_current(
                lower_body(statements_view(statements@), start.current()),
            ).scopes);
        }
    }

    /// Compiles a branch of an `if`.
    fn compile_block(&mut self, block: &BlockStatement)
        requires
            old(self).scopes.len() > 0,
        ensures
            final(self)@ == old(self)@.with_current(lower_block(block@, old(self)@.current())),
            final(self).scopes.len() == old(self).scopes.len(),
            lower_block(block@, old(self)@.current()).ops.len() >= old(self)@.current().ops.len(),
        decreases block, 0int,
    {
        proof {
            lemma_block_statements(*block);
        }
        let ghost start = self@;
        let last = self.compile_sequence(&block.statements);
        match last {
            Some(StatementKind::Expression) => {
                self.unemit();
            },
            Some(StatementKind::Return) => {
                self.emit(Op::ReturnValue);
            },
            _ => {
                self.emit(Op::Null(block.span()));
            },
        }
        proof {
            assert(self@.scopes =~= start.with_current(
                lower_block(block@, start.current()),
            ).scopes);
        }
    }

    /// Compiles one statement.
    fn compile_statement(&mut self, statement: &Statement)
        requires
            old(self).scopes.len() > 0,
        ensures
            final(self)@ == old(self)@.with_current(
                lower_statement(statement@, old(self)@.current()),
            ),
            final(self).scopes.len() == old(self).scopes.len(),
            lower_statement(statement@, old(self)@.current()).ops.len() >= old(
                self,
            )@.current().ops.len(),
            statement is Expression ==> lower_statement(statement@, old(self)@.current()).ops.len()
                > old(self)@.current().ops.len(),
        decreases statement, 0int,
    {
        let ghost start = self@;
        match statement {
            Statement::Expression(expr) => {
                self.compile_expression(expr, None);
                self.emit(Op::Pop);
            },
            Statement::Let { name, value, .. } => {
                self.compile_expression(value, Some(&name.value));
                self.emit(Op::Bind(name.value.clone()));
            },
            Statement::Return { value, .. } => {
                self.compile_expression(value, None);
            },
        }
        proof {
            assert(self@.scopes =~= start.with_current(
                lower_statement(statement@, start.current()),
            ).scopes);
        }
    }

    /// Compiles `items[..]`, the last of them first.
    fn compile_reversed(&mut self, items: &Vec<Expression>)
        requires
            old(self).scopes.len() > 0,
        ensures
            ({
                let done = lower_reversed(
                    expressions_view(items@),
                    items@.len() as int,
                    old(self)@.current(),
                );
                &&& final(self)@ == old(self)@.with_current(done)
                &&& done.ops.len() >= old(self)@.current().ops.len()
            }),
            final(self).scopes.len() == old(self).scopes.len(),
        decreases items, 0int,
    {
        let ghost all = expressions_view(items@);
        let ghost start = self@;
        let mut i: usize = items.len();
        proof {
            assert(start.with_current(start.current()).scopes =~= start.scopes);
        }
        while i > 0
            invariant
                i <= items.len(),
                all == expressions_view(items@),
                start == old(self)@,
                self.scopes.len() == old(self).scopes.len(),
                self.scopes.len() > 0,
                self@ == start.with_current(self@.current()),
                lower_reversed(all, items@.len() as int, start.current()) == lower_reversed(
                    all,
                    i as int,
                    self@.current(),
                ),
                self@.current().ops.len() >= start.current().ops.len(),
            decreases i,
        {
            i -= 1;
            proof {
                assert(decreases_to!(*items => items[i as int]));
            }
            self.compile_expression(&items[i], None);
            proof {
                assert(self@.scopes =~= start.with_current(self@.current()).scopes);
            }
        }
    }

    /// Compiles `entries[..]`, the last of them first, and of each entry the
    /// value before the key.
    fn compile_entries(&mut self, entries: &Vec<(Expression, Expression)>)
        requires
            old(self).scopes.len() > 0,
        ensures
            ({
                let done = lower_entries(
                    entries_view(entries@),
                    entries@.len() as int,
                    old(self)@.current(),
                );
                &&& final(self)@ == old(self)@.with_current(done)
                &&& done.ops.len() >= old(self)@.current().ops.len()
            }),
            final(self).scopes.len() == old(self).scopes.len(),
        decreases entries, 0int,
    {
        let ghost all = entries_view(entries@);
        let ghost start = self@;
        let mut i: usize = entries.len();
        proof {
            assert(start.with_current(start.current()).scopes =~= start.scopes);
        }
        while i > 0
            invariant
                i <= entries.len(),
                all == entries_view(entries@),
                start == old(self)@,
                self.scopes.len() == old(self).scopes.len(),
                self.scopes.len() > 0,
                self@ == start.with_current(self@.current()),
                lower_entries(all, entries@.len() as int, start.current()) == lower_entries(
                    all,
                    i as int,
                    self@.current(),
                ),
                self@.current().ops.len() >= start.current().ops.len(),
            decreases i,
        {
            i -= 1;
            proof {
                assert(decreases_to!(*entries => entries[i as int]));
                assert(decreases_to!(entries[i as int] => entries[i as int].0));
                assert(decreases_to!(entries[i as int] => entries[i as int].1));
            }
            self.compile_expression(&entries[i].1, None);
            proof {
                assert(self@.scopes =~= start.with_current(self@.current()).scopes);
            }
            self.compile_expression(&entries[i].0, None);
            proof {
                assert(self@.scopes =~= start.with_current(self@.current()).scopes);
            }
        }
    }

    /// Compiles `items[..]` in order.
    fn compile_arguments(&mut self, items: &Vec<Expression>)
        requires
            old(self).scopes.len() > 0,
        ensures
            ({
                let done = lower_arguments(expressions_view(items@), 0, old(self)@.current());
                &&& final(self)@ == old(self)@.with_current(done)
                &&& done.ops.len() >= old(self)@.current().ops.len()
            }),
            final(self).scopes.len() == old(self).scopes.len(),
        decreases items, 0int,
    {
        let ghost all = expressions_view(items@);
        let ghost start = self@;
        let mut i: usize = 0;
        proof {
            assert(start.with_current(start.current()).scopes =~= start.scopes);
        }
        while i < items.len()
            invariant
                i <= items.len(),
                all == expressions_view(items@),
                start == old(self)@,
                self.scopes.len() == old(self).scopes.len(),
                self.scopes.len() > 0,
                self@ == start.with_current(self@.current()),
                lower_arguments(all, 0, start.current()) == lower_arguments(
                    all,
                    i as int,
                    self@.current(),
                ),
                self@.current().ops.len() >= start.current().ops.len(),
            decreases items.len() - i,
        {
            proof {
                assert(decreases_to!(*items => items[i as int]));
            }
            self.compile_expression(&items[i], None);
            proof {
                assert(self@.scopes =~= start.with_current(self@.current()).scopes);
            }
            i += 1;
        }
    }

    /// Compiles a function literal into a constant.
    fn compile_function(
        &mut self,
        fn_span: Span,
        parameters: &Rc<Vec<Identifier>>,
        body: &Rc<BlockStatement>,
        hint: Option<&String>,
        Ghost(expr): Ghost<Expression>,
    )
        requires
            old(self).scopes.len() > 0,
            expr == (Expression::Function { fn_span, parameters: *parameters, body: *body }),
        ensures
            final(self)@ == old(self)@.with_current(
                lower_expr(expr@, name_view(hint), old(self)@.current()),
            ),
            final(self).scopes.len() == old(self).scopes.len(),
            lower_expr(expr@, name_view(hint), old(self)@.current()).ops.len() >= old(
                self,
            )@.current().ops.len(),
        decreases expr, 0int,
    {
        let block: &BlockStatement = body;
        proof {
            lemma_block_statements(*block);
            assert(expr is Function);
            assert(expr->body == *body);
            assert(decreases_to!(expr => expr->body));
            assert(decreases_to!(expr => *block));
            assert(decreases_to!(*block => block.statements));
        }
        let ghost start = self@;
        self.enter_scope();
        let span = fn_span.join(block.span());
        self.compile_statements(&block.statements);
        let ops = self.leave_scope();
        let mut params: Vec<String> = Vec::new();
        let mut i: usize = 0;
        while i < parameters.len()
            invariant
                i <= parameters.len(),
                params@.len() == i,
                forall|j: int| 0 <= j < i ==> params@[j]@ == parameters@[j].value@,
            decreases parameters.len() - i,
        {
            params.push(parameters[i].value.clone());
            i += 1;
        }
        let this = match hint {
            Some(name) => Some(name.clone()),
            None => None,
        };
        let function = CompiledFunction {
            ops: Rc::new(ops),
            params: Rc::new(params),
            this,
            captured: Vec::new(),
        };
        proof {
            lemma_compiled_model(function);
            let made = function.model();
            assert(made.params =~= names_of(identifiers_view((*parameters)@)));
            assert(made.captured =~= Seq::empty());
            assert(made.this == name_view(hint));
            assert(self@.scopes =~= start.scopes);
        }
        self.add_constant(Object::CompiledFunction(Rc::new(function)), span);
        proof {
            assert(self@.scopes =~= start.with_current(
                lower_expr(expr@, name_view(hint), start.current()),
            ).scopes);
        }
    }

    /// Compiles what is called with `count` arguments.
    fn compile_callee(&mut self, function: &Expression, count: usize)
        requires
            old(self).scopes.len() > 0,
        ensures
            final(self)@ == old(self)@.with_current(
                lower_callee(function@, count as nat, old(self)@.current()),
            ),
            final(self).scopes.len() == old(self).scopes.len(),
            lower_callee(function@, count as nat, old(self)@.current()).ops.len() >= old(
                self,
            )@.current().ops.len(),
        decreases function, 2int,
    {
        let builtin = match function {
            Expression::Identifier(name) => lookup_intrinsic(name.value.as_str()).is_some(),
            _ => false,
        };
        if !builtin {
            self.compile_expression(function, None);
            return ;
        }
        let name = match function {
            Expression::Identifier(name) => name.value.clone(),
            _ => String::new(),
        };
        let mut params: Vec<String> = Vec::new();
        let mut i: usize = 0;
        while i < count
            invariant
                i <= count,
                params@.len() == i,
                forall|j: int| 0 <= j < i ==> params@[j]@ == Seq::<char>::empty(),
            decreases count - i,
        {
            params.push(String::new());
            i += 1;
        }
        let marker = CompiledFunction {
            ops: Rc::new(Vec::new()),
            params: Rc::new(params),
            this: Some(name),
            captured: Vec::new(),
        };
        proof {
            lemma_compiled_model(marker);
            let made = marker.model();
            assert(made.ops =~= Seq::empty());
            assert(made.params =~= Seq::new(count as nat, |i: int| Seq::<char>::empty()));
            assert(made.captured =~= Seq::empty());
            assert(made.this == Some(name@));
        }
        self.add_constant(Object::CompiledFunction(Rc::new(marker)), function.span());
    }

    /// Compiles an expression. `hint` is the name that a `let` is about to
    /// bind its value to.
    #[verifier::rlimit(100)]
    #[verifier::spinoff_prover]
    fn compile_expression(&mut self, expr: &Expression, hint: Option<&String>)
        requires
            old(self).scopes.len() > 0,
        ensures
            final(self)@ == old(self)@.with_current(
                lower_expr(expr@, name_view(hint), old(self)@.current()),
            ),
            final(self).scopes.len() == old(self).scopes.len(),
            lower_expr(expr@, name_view(hint), old(self)@.current()).ops.len() >= old(
                self,
            )@.current().ops.len(),
        decreases expr, 1int,
    {
        proof {
            lemma_model_sequences(*expr);
        }
        let ghost start = self@;
        let span = expr.span();
        match expr {
            Expression::Integer { span, value } => {
                self.add_constant(Object::Integer(*value), *span);
            },
            Expression::String { span, value } => {
                self.add_constant(Object::String(value.clone()), *span);
            },
            Expression::Boolean { span, value } => {
                if *value {
                    self.emit(Op::True(*span));
                } else {
                    self.emit(Op::False(*span));
                }
            },
            Expression::Null { span } => {
                self.emit(Op::Null(*span));
            },
            Expression::Identifier(name) => {
                self.emit(Op::Get { name: name.value.clone(), span: name.span() });
            },
            Expression::Prefix { operator, operand, .. } => {
                self.compile_expression(operand, None);
                match operator {
                    PrefixOperator::Not => self.emit(Op::Not(span)),
                    PrefixOperator::Neg => self.emit(Op::Neg(span)),
                }
            },
            Expression::Infix { left, operator, right } => {
                match operator {
                    InfixOperator::LT => {
                        self.compile_expression(right, None);
                        self.compile_expression(left, None);
                    },
                    _ => {
                        self.compile_expression(left, None);
                        self.compile_expression(right, None);
                    },
                }
                self.emit(Op::from_infix(*operator));
            },
            Expression::If { condition, consequence, alternative, .. } => {
                self.compile_expression(condition, None);
                let branch: usize = self.position();
                self.emit(Op::JumpIfNot(0));
                self.compile_block(consequence);
                match alternative {
                    Some(block) => {
                        let skip: usize = self.position();
                        self.emit(Op::Jump(0));
                        let target: usize = self.position();
                        self.patch(branch, Op::JumpIfNot(target));
                        self.compile_block(block);
                        let end: usize = self.position();
                        self.patch(skip, Op::Jump(end));
                    },
                    None => {
                        let target: usize = self.position();
                        self.patch(branch, Op::JumpIfNot(target));
                    },
                }
            },
            Expression::Array { open, elements, close } => {
                self.compile_reversed(elements);
                self.emit(Op::Array { size: elements.len(), span: open.join(*close) });
            },
            Expression::Hash { open, entries, close } => {
                self.compile_entries(entries);
                self.emit(Op::Hash { size: entries.len(), span: open.join(*close) });
            },
            Expression::Index { collection, index, close_span } => {
                let whole = collection.span().join(*close_span);
                self.compile_expression(collection, None);
                self.compile_expression(index, None);
                self.emit(Op::Index(whole));
            },
            Expression::Function { fn_span, parameters, body } => {
                self.compile_function(*fn_span, parameters, body, hint, Ghost(*expr));
            },
            Expression::Call { function, open_span, arguments, close_span } => {
                let call_span = function.span().join(*close_span);
                let args_span = open_span.join(*close_span);
                self.compile_arguments(arguments);
                self.compile_callee(function, arguments.len());
                self.emit(Op::Call { call_span, args_span });
            },
        }
        proof {
            assert(self@.scopes =~= start.with_current(
                lower_expr(expr@, name_view(hint), start.current()),
            ).scopes);
        }
    }
}

/// The value of a name hint.
pub open spec fn name_view(hint: Option<&String>) -> Option<Seq<char>> {
    match hint {
        Some(name) => Some(name@),
        None => None,
    }
}

} // verus!
