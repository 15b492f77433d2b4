use crate::ast::BlockView;
use crate::ast::ExpressionView;
use crate::ast::InfixOperator;
use crate::ast::PrefixOperator;
use crate::ast::ProgramView;
use crate::ast::StatementView;
use crate::code::op_of_infix;
use crate::code::OpView;
use crate::code::SpannedObjectView;
use crate::compiler::compiled;
use crate::compiler::Emitted;
use crate::compiler::lower_block;
use crate::compiler::lower_body;
use crate::compiler::lower_expr;
use crate::compiler::lower_statement;
use crate::compiler::lower_statements;
use crate::eval::child_of;
use crate::eval::ErrorView;
use crate::eval::eval_block;
use crate::eval::eval_expr;
use crate::eval::exec_program;
use crate::eval::exec_statement;
use crate::eval::exec_statements;
use crate::eval::infix_result;
use crate::eval::prefix_result;
use crate::object::bind;
use crate::object::binding_of;
use crate::object::CompiledFunctionView;
use crate::object::EnvironmentView;
use crate::object::ObjectView;
use crate::token::Span;
use crate::vm::binary_step;
use crate::vm::branch_step;
use crate::vm::frame::FrameView;
use crate::vm::machine_infix;
use crate::vm::MachineView;
use crate::vm::run_from;
use crate::vm::step;
use crate::vm::Step;
use crate::vm::unary_step;
use vstd::prelude::*;

verus! {

/// Whether a block holds one statement, an expression, and that is plain.
pub open spec fn is_plain_block(block: BlockView) -> bool
    decreases block,
{
    block.statements.len() == 1 && match block.statements[0] {
        StatementView::Expression(inner) => is_plain(inner),
        _ => false,
    }
}

/// The expression that a plain block holds.
pub open spec fn inner_of(block: BlockView) -> ExpressionView {
    match block.statements[0] {
        StatementView::Expression(inner) => inner,
        _ => ExpressionView::Null { span: block.open },
    }
}

/// Whether an expression is plain: made of names, of literals of integers,
/// booleans, strings and `null`, of operators, and of `if` with `else`
/// whose branches each hold one plain expression. A plain expression calls
/// nothing, makes no function and builds no collection.
pub open spec fn is_plain(expr: ExpressionView) -> bool
    decreases expr,
{
    match expr {
        ExpressionView::Integer { .. } => true,
        ExpressionView::Boolean { .. } => true,
        ExpressionView::String { .. } => true,
        ExpressionView::Null { .. } => true,
        ExpressionView::Identifier(_) => true,
        ExpressionView::Prefix { operand, .. } => is_plain(*operand),
        ExpressionView::Infix { left, right, .. } => is_plain(*left) && is_plain(*right),
        ExpressionView::If { condition, consequence, alternative, .. } => is_plain(*condition)
            && is_plain_block(consequence) && match alternative {
            Some(block) => is_plain_block(block),
            None => false,
        },
        _ => false,
    }
}

/// Whether a value is an integer, a boolean, a string or `null`.
pub open spec fn is_plain_value(value: ObjectView) -> bool {
    value is Integer || value is Boolean || value is String || value is Null
}

/// The expression in a plain block is smaller than the block.
pub proof fn lemma_inner_is_smaller(block: BlockView)
    requires
        is_plain_block(block),
    ensures
        decreases_to!(block => inner_of(block)),
        is_plain(inner_of(block)),
{
    assert(decreases_to!(block => block.statements));
    assert(decreases_to!(block.statements => block.statements[0]));
    assert(decreases_to!(block.statements[0] => inner_of(block)));
}

/// What a result is worth: its value, if it has one.
pub open spec fn value_in<E>(result: Result<ObjectView, E>) -> Option<ObjectView> {
    match result {
        Ok(value) => Some(value),
        Err(_) => None,
    }
}

/// The value of a plain expression, if it has one, where the names are
/// bound as in `vars`.
pub open spec fn value_of(
    vars: Seq<(Seq<char>, ObjectView)>,
    expr: ExpressionView,
) -> Option<ObjectView>
    decreases expr,
{
    match expr {
        ExpressionView::Integer { value, .. } => Some(ObjectView::Integer(value)),
        ExpressionView::Boolean { value, .. } => Some(ObjectView::Boolean(value)),
        ExpressionView::String { value, .. } => Some(ObjectView::String(value)),
        ExpressionView::Null { .. } => Some(ObjectView::Null),
        ExpressionView::Identifier(name) => binding_of(vars, name.value),
        ExpressionView::Prefix { operator, operand, .. } => match value_of(vars, *operand) {
            Some(value) => value_in(prefix_result(operator, value)),
            None => None,
        },
        ExpressionView::Infix { left, operator, right } => match value_of(vars, *left) {
            Some(left_value) => match value_of(vars, *right) {
                Some(right_value) => value_in(infix_result(operator, left_value, right_value)),
                None => None,
            },
            None => None,
        },
        ExpressionView::If { condition, consequence, alternative, .. } => match value_of(vars, *condition,
        ) {
            Some(test) => if is_plain_block(consequence) && alternative is Some && is_plain_block(
                alternative->0,
            ) {
                if test.truthy() {
                    value_of(vars, inner_of(consequence))
                } else {
                    value_of(vars, inner_of(alternative->0))
                }
            } else {
                None
            },
            None => None,
        },
        _ => None,
    }
}

/// Whether all names are bound to plain values.
pub open spec fn plain_vars(vars: Seq<(Seq<char>, ObjectView)>) -> bool {
    forall|i: int| 0 <= i < vars.len() ==> is_plain_value((#[trigger] vars[i]).1)
}

/// A name that is bound is bound to one of the values.
pub proof fn lemma_bound_is_plain(vars: Seq<(Seq<char>, ObjectView)>, name: Seq<char>)
    requires
        plain_vars(vars),
    ensures
        binding_of(vars, name) matches Some(value) ==> is_plain_value(value),
{
    crate::object::lemma_binding_index(vars, name);
    let at = crate::object::binding_index(vars, name);
    if at < vars.len() {
        assert(is_plain_value(vars[at].1));
    }
}

/// Binding a name to a plain value keeps all values plain.
pub proof fn lemma_bind_keeps_plain(
    vars: Seq<(Seq<char>, ObjectView)>,
    name: Seq<char>,
    value: ObjectView,
)
    requires
        plain_vars(vars),
        is_plain_value(value),
    ensures
        plain_vars(bind(vars, name, value)),
{
    crate::object::lemma_binding_index(vars, name);
    let after = bind(vars, name, value);
    assert forall|i: int| 0 <= i < after.len() implies is_plain_value((#[trigger] after[i]).1) by {
        if i < vars.len() && i != crate::object::binding_index(vars, name) {
            assert(after[i] == vars[i]);
        }
    }
}

/// What the value of a plain expression can be.
pub proof fn lemma_value_is_plain(vars: Seq<(Seq<char>, ObjectView)>, expr: ExpressionView)
    requires
        is_plain(expr),
        plain_vars(vars),
    ensures
        value_of(vars, expr) matches Some(value) ==> is_plain_value(value),
    decreases expr,
{
    match expr {
        ExpressionView::Prefix { operand, .. } => {
            lemma_value_is_plain(vars, *operand);
        },
        ExpressionView::Infix { left, right, .. } => {
            lemma_value_is_plain(vars, *left);
            lemma_value_is_plain(vars, *right);
        },
        ExpressionView::If { condition, consequence, alternative, .. } => {
            lemma_inner_is_smaller(consequence);
            lemma_inner_is_smaller(alternative->0);
            lemma_value_is_plain(vars, inner_of(consequence));
            lemma_value_is_plain(vars, inner_of(alternative->0));
        },
        ExpressionView::Identifier(name) => {
            lemma_bound_is_plain(vars, name.value);
        },
        _ => {},
    }
}

/// Whether `env` binds the names as `vars` does: its outermost scope holds
/// `vars`, and the scopes inside it hold nothing.
pub open spec fn scoped(env: EnvironmentView, vars: Seq<(Seq<char>, ObjectView)>) -> bool
    decreases env,
{
    match env.outer {
        Some(outer) => env.values.len() == 0 && scoped(*outer, vars),
        None => env.values == vars,
    }
}

/// A name is looked up in such an environment as in `vars`.
pub proof fn lemma_lookup_scoped(
    env: EnvironmentView,
    vars: Seq<(Seq<char>, ObjectView)>,
    name: Seq<char>,
)
    requires
        scoped(env, vars),
    ensures
        crate::eval::lookup(env, name) == binding_of(vars, name),
    decreases env,
{
    match env.outer {
        Some(outer) => {
            lemma_lookup_scoped(*outer, vars, name);
        },
        None => {},
    }
}

/// Whether the tree walker has come to the value `wanted`, or, where there
/// is none, to at least one error.
pub open spec fn walked_to(
    result: Result<ObjectView, Seq<ErrorView>>,
    wanted: Option<ObjectView>,
) -> bool {
    match wanted {
        Some(value) => result == Ok::<ObjectView, Seq<ErrorView>>(value),
        None => result matches Err(errors) && errors.len() > 0,
    }
}

/// A block that holds one expression comes to what that expression comes
/// to in a new scope.
pub proof fn lemma_block_is_inner(
    env: EnvironmentView,
    block: BlockView,
    depth: nat,
    printed: Seq<Seq<char>>,
    wanted: Option<ObjectView>,
)
    requires
        is_plain_block(block),
        wanted matches Some(value) ==> is_plain_value(value),
        walked_to(eval_expr(child_of(env), inner_of(block), None, depth, printed).result, wanted),
    ensures
        walked_to(eval_block(env, block, depth, printed).result, wanted),
{
    let inner = inner_of(block);
    let scope = child_of(env);
    let value = eval_expr(scope, inner, None, depth, printed);
    let first = exec_statement(scope, block.statements[0], depth, printed);
    assert(first.result == value.result);
    let run = exec_statements(
        scope,
        block.statements,
        0,
        Seq::empty(),
        ObjectView::Null,
        depth,
        printed,
    );
    match value.result {
        Ok(found) => {
            let rest = exec_statements(
                first.env,
                block.statements,
                1,
                Seq::empty(),
                found,
                depth,
                first.printed,
            );
            assert(rest.result == Ok::<ObjectView, Seq<ErrorView>>(found));
            assert(run.result == rest.result);
        },
        Err(errors) => {
            let rest = exec_statements(
                first.env,
                block.statements,
                1,
                Seq::<ErrorView>::empty() + errors,
                ObjectView::Null,
                depth,
                first.printed,
            );
            assert(Seq::<ErrorView>::empty() + errors =~= errors);
            assert(rest.result == Err::<ObjectView, Seq<ErrorView>>(errors));
            assert(run.result == rest.result);
        },
    }
}

/// The tree walker gives a plain expression its value, whatever the
/// environment, the depth of calls allowed and the lines printed before;
/// where the expression has no value, it comes to at least one error.
pub proof fn lemma_walks_to_value(vars: Seq<(Seq<char>, ObjectView)>, env: EnvironmentView,
    expr: ExpressionView,
    depth: nat,
    printed: Seq<Seq<char>>,
)
    requires
        is_plain(expr),
        plain_vars(vars),
        scoped(env, vars),
    ensures
        walked_to(eval_expr(env, expr, None, depth, printed).result, value_of(vars, expr)),
    decreases expr,
{
    match expr {
        ExpressionView::Identifier(name) => {
            lemma_lookup_scoped(env, vars, name.value);
        },
        ExpressionView::Prefix { operand, .. } => {
            lemma_walks_to_value(vars, env, *operand, depth, printed);
        },
        ExpressionView::Infix { left, right, .. } => {
            lemma_walks_to_value(vars, env, *left, depth, printed);
            let first = eval_expr(env, *left, None, depth, printed);
            lemma_walks_to_value(vars, env, *right, depth, first.printed);
        },
        ExpressionView::If { condition, consequence, alternative, .. } => {
            lemma_walks_to_value(vars, env, *condition, depth, printed);
            let test = eval_expr(env, *condition, None, depth, printed);
            if test.result is Ok {
                let block = if test.result->Ok_0.truthy() {
                    consequence
                } else {
                    alternative->0
                };
                lemma_inner_is_smaller(block);
                lemma_value_is_plain(vars, inner_of(block));
                lemma_walks_to_value(vars, child_of(env), inner_of(block), depth, test.printed);
                lemma_block_is_inner(env, block, depth, test.printed, value_of(vars, inner_of(block)));
            }
        },
        _ => {},
    }
}

/// The instructions of a plain block are those of the expression in it.
pub proof fn lemma_lower_plain_block(block: BlockView, state: Emitted)
    requires
        is_plain_block(block),
    ensures
        lower_block(block, state) == lower_expr(inner_of(block), None, state),
{
    let inner = inner_of(block);
    let lowered = lower_expr(inner, None, state);
    let next = lower_statement(block.statements[0], state);
    assert(next.ops == lowered.ops.push(OpView::Pop));
    let done = lower_statements(block.statements, 0, state, None);
    let rest = lower_statements(
        block.statements,
        1,
        next,
        Some(crate::compiler::StatementKind::Expression),
    );
    assert(done == rest);
    assert(rest.0 == next);
    assert(lower_block(block, state).ops =~= lowered.ops);
}

/// Where the instructions and the constants of the parts of an `if` stand
/// once the whole is lowered.
pub struct Layout {
    /// The state after the condition.
    pub tested: Emitted,
    /// The state in which the first branch is lowered.
    pub start: Emitted,
    /// The state after the first branch.
    pub taken: Emitted,
    /// The state in which the second branch is lowered.
    pub patched: Emitted,
    /// The state after the second branch.
    pub other: Emitted,
}

/// The layout of a plain `if`.
pub open spec fn layout_of(
    condition: ExpressionView,
    consequence: BlockView,
    alternative: BlockView,
    state: Emitted,
) -> Layout {
    let tested = lower_expr(condition, None, state);
    let start = crate::compiler::emit(tested, OpView::JumpIfNot(0));
    let taken = lower_expr(inner_of(consequence), None, start);
    let skipped = crate::compiler::emit(taken, OpView::Jump(0));
    let patched = crate::compiler::patch(
        skipped,
        tested.ops.len() as int,
        OpView::JumpIfNot(skipped.ops.len() as usize),
    );
    let other = lower_expr(inner_of(alternative), None, patched);
    Layout { tested, start, taken, patched, other }
}

/// Lowering a plain expression adds at least one instruction and keeps the
/// instructions and the constants that were there.
pub proof fn lemma_lower_keeps(expr: ExpressionView, state: Emitted)
    requires
        is_plain(expr),
    ensures
        lower_expr(expr, None, state).ops.len() > state.ops.len(),
        lower_expr(expr, None, state).constants.len() >= state.constants.len(),
        forall|i: int|
            0 <= i < state.ops.len() ==> lower_expr(expr, None, state).ops[i] == state.ops[i],
        forall|i: int|
            0 <= i < state.constants.len() ==> lower_expr(expr, None, state).constants[i]
                == state.constants[i],
    decreases expr,
{
    match expr {
        ExpressionView::Prefix { operand, .. } => {
            lemma_lower_keeps(*operand, state);
        },
        ExpressionView::Infix { left, operator, right } => {
            if operator == InfixOperator::LT {
                lemma_lower_keeps(*right, state);
                lemma_lower_keeps(*left, lower_expr(*right, None, state));
            } else {
                lemma_lower_keeps(*left, state);
                lemma_lower_keeps(*right, lower_expr(*left, None, state));
            }
        },
        ExpressionView::If { condition, consequence, alternative, .. } => {
            let layout = layout_of(*condition, consequence, alternative->0, state);
            lemma_inner_is_smaller(consequence);
            lemma_inner_is_smaller(alternative->0);
            lemma_lower_keeps(*condition, state);
            lemma_lower_plain_block(consequence, layout.start);
            lemma_lower_keeps(inner_of(consequence), layout.start);
            lemma_lower_plain_block(alternative->0, layout.patched);
            lemma_lower_keeps(inner_of(alternative->0), layout.patched);
            let lowered = lower_expr(expr, None, state);
            let skipped = crate::compiler::emit(layout.taken, OpView::Jump(0));
            assert(lowered == crate::compiler::patch(
                layout.other,
                layout.taken.ops.len() as int,
                OpView::Jump(layout.other.ops.len() as usize),
            ));
            assert forall|i: int| 0 <= i < state.ops.len() implies lowered.ops[i]
                == state.ops[i] by {
                assert(lowered.ops[i] == layout.other.ops[i]);
                assert(layout.other.ops[i] == layout.patched.ops[i]);
                assert(layout.patched.ops[i] == skipped.ops[i]);
                assert(layout.taken.ops[i] == layout.start.ops[i]);
                assert(layout.start.ops[i] == layout.tested.ops[i]);
            }
            assert forall|i: int| 0 <= i < state.constants.len() implies lowered.constants[i]
                == state.constants[i] by {
                assert(lowered.constants[i] == layout.other.constants[i]);
                assert(layout.other.constants[i] == layout.patched.constants[i]);
                assert(layout.taken.constants[i] == layout.start.constants[i]);
                assert(layout.start.constants[i] == layout.tested.constants[i]);
            }
        },
        _ => {},
    }
}

/// The machine `m` with the stack `stack` and its innermost call at `ip`.
pub open spec fn placed(m: MachineView, stack: Seq<SpannedObjectView>, ip: int) -> MachineView {
    MachineView {
        stack,
        capacity: m.capacity,
        frames: m.frames.update(
            m.frames.len() - 1,
            FrameView { ip: ip as usize, ..m.frames.last() },
        ),
        constants: m.constants,
        output: m.output,
    }
}

/// Whether a run ended because the stack was full or the instructions
/// allowed were used up.
pub open spec fn gave_up(m: MachineView, fuel: nat) -> bool {
    run_from(m, fuel).result == Err::<ObjectView, crate::vm::ErrorView>(
        crate::vm::ErrorView::Overflow,
    ) || run_from(m, fuel).result == Err::<ObjectView, crate::vm::ErrorView>(
        crate::vm::ErrorView::StepLimit,
    )
}

/// How far a run has come: after `steps` instructions the machine has pushed
/// a value with the span `span` and stands behind the instructions, if
/// `reached`; else the run gave up.
pub struct Progress {
    pub reached: bool,
    pub steps: nat,
    pub span: Span,
}

/// Whether the instructions and constants that `expr` was lowered to, from
/// the state `state`, stand in the program `ops` and among `constants`.
pub open spec fn holds_code(
    ops: Seq<OpView>,
    constants: Seq<SpannedObjectView>,
    expr: ExpressionView,
    state: Emitted,
) -> bool {
    let lowered = lower_expr(expr, None, state);
    &&& lowered.ops.len() <= ops.len() <= usize::MAX
    &&& lowered.constants.len() <= constants.len() <= usize::MAX
    &&& forall|i: int| state.ops.len() <= i < lowered.ops.len() ==> ops[i] == lowered.ops[i]
    &&& forall|i: int|
        state.constants.len() <= i < lowered.constants.len() ==> constants[i]
            == lowered.constants[i]
}

/// Where `ops` holds the code of a unary expression it holds that of the
/// operand, followed by the instruction of the operator.
pub proof fn lemma_holds_prefix(
    ops: Seq<OpView>,
    constants: Seq<SpannedObjectView>,
    expr: ExpressionView,
    state: Emitted,
)
    requires
        is_plain(expr),
        expr is Prefix,
        holds_code(ops, constants, expr, state),
    ensures
        holds_code(ops, constants, *expr->operand, state),
        lower_expr(expr, None, state).ops.len() == lower_expr(*expr->operand, None, state).ops.len()
            + 1,
        ops[lower_expr(*expr->operand, None, state).ops.len() as int] == match expr->Prefix_operator {
            PrefixOperator::Not => OpView::Not(expr.span()),
            PrefixOperator::Neg => OpView::Neg(expr.span()),
        },
{
    lemma_lower_keeps(*expr->operand, state);
    let inner = lower_expr(*expr->operand, None, state);
    let lowered = lower_expr(expr, None, state);
    assert(lowered.ops[inner.ops.len() as int] == ops[inner.ops.len() as int]);
}

/// The operand of a binary expression whose instructions come first.
pub open spec fn head_of(expr: ExpressionView) -> ExpressionView {
    if expr->Infix_operator == InfixOperator::LT {
        *expr->right
    } else {
        *expr->left
    }
}

/// The operand of a binary expression whose instructions come second.
pub open spec fn tail_of(expr: ExpressionView) -> ExpressionView {
    if expr->Infix_operator == InfixOperator::LT {
        *expr->left
    } else {
        *expr->right
    }
}

/// Where `ops` holds the code of a binary expression it holds that of the
/// operands, one after the other, followed by the instruction of the operator.
pub proof fn lemma_holds_infix(
    ops: Seq<OpView>,
    constants: Seq<SpannedObjectView>,
    expr: ExpressionView,
    state: Emitted,
)
    requires
        is_plain(expr),
        expr is Infix,
        holds_code(ops, constants, expr, state),
    ensures
        is_plain(head_of(expr)),
        is_plain(tail_of(expr)),
        decreases_to!(expr => head_of(expr)),
        decreases_to!(expr => tail_of(expr)),
        holds_code(ops, constants, head_of(expr), state),
        holds_code(ops, constants, tail_of(expr), lower_expr(head_of(expr), None, state)),
        lower_expr(expr, None, state).ops.len() == lower_expr(
            tail_of(expr),
            None,
            lower_expr(head_of(expr), None, state),
        ).ops.len() + 1,
        ops[lower_expr(tail_of(expr), None, lower_expr(head_of(expr), None, state)).ops.len() as int]
            == op_of_infix(expr->Infix_operator),
{
    let head = head_of(expr);
    let tail = tail_of(expr);
    let middle = lower_expr(head, None, state);
    let both = lower_expr(tail, None, middle);
    lemma_lower_keeps(head, state);
    lemma_lower_keeps(tail, middle);
    let lowered = lower_expr(expr, None, state);
    assert(lowered == crate::compiler::emit(both, op_of_infix(expr->Infix_operator)));
    assert(lowered.ops[both.ops.len() as int] == ops[both.ops.len() as int]);
    assert forall|i: int| state.ops.len() <= i < middle.ops.len() implies ops[i]
        == middle.ops[i] by {
        assert(lowered.ops[i] == both.ops[i]);
    }
    assert forall|i: int| state.constants.len() <= i < middle.constants.len() implies constants[i]
        == middle.constants[i] by {
        assert(lowered.constants[i] == both.constants[i]);
    }
    assert forall|i: int| middle.ops.len() <= i < both.ops.len() implies ops[i] == both.ops[i] by {
        assert(lowered.ops[i] == both.ops[i]);
    }
}

/// Where `ops` holds the code of a plain `if` it holds that of the
/// condition, a conditional jump behind the first branch, the first branch,
/// a jump behind the second branch, and the second branch.
pub proof fn lemma_holds_if(
    ops: Seq<OpView>,
    constants: Seq<SpannedObjectView>,
    expr: ExpressionView,
    state: Emitted,
)
    requires
        is_plain(expr),
        expr is If,
        holds_code(ops, constants, expr, state),
    ensures
        ({
            let consequence = expr->consequence;
            let alternative = expr->alternative->0;
            let layout = layout_of(*expr->condition, consequence, alternative, state);
            &&& holds_code(ops, constants, *expr->condition, state)
            &&& holds_code(ops, constants, inner_of(consequence), layout.start)
            &&& holds_code(ops, constants, inner_of(alternative), layout.patched)
            &&& layout.start.ops.len() == layout.tested.ops.len() + 1
            &&& layout.patched.ops.len() == layout.taken.ops.len() + 1
            &&& lower_expr(expr, None, state).ops.len() == layout.other.ops.len()
            &&& layout.tested.ops.len() > state.ops.len()
            &&& layout.taken.ops.len() > layout.start.ops.len()
            &&& layout.other.ops.len() > layout.patched.ops.len()
            &&& ops[layout.tested.ops.len() as int] == OpView::JumpIfNot(
                layout.patched.ops.len() as usize,
            )
            &&& ops[layout.taken.ops.len() as int] == OpView::Jump(layout.other.ops.len() as usize)
        }),
{
    let condition = *expr->condition;
    let consequence = expr->consequence;
    let alternative = expr->alternative->0;
    let layout = layout_of(condition, consequence, alternative, state);
    let lowered = lower_expr(expr, None, state);
    let branch = layout.tested.ops.len() as int;
    let skip = layout.taken.ops.len() as int;
    let skipped = crate::compiler::emit(layout.taken, OpView::Jump(0));
    lemma_inner_is_smaller(consequence);
    lemma_inner_is_smaller(alternative);
    lemma_lower_keeps(condition, state);
    lemma_lower_plain_block(consequence, layout.start);
    lemma_lower_keeps(inner_of(consequence), layout.start);
    lemma_lower_plain_block(alternative, layout.patched);
    lemma_lower_keeps(inner_of(alternative), layout.patched);
    assert(lowered == crate::compiler::patch(
        layout.other,
        skip,
        OpView::Jump(layout.other.ops.len() as usize),
    ));
    assert(lowered.ops[branch] == ops[branch]);
    assert(lowered.ops[skip] == ops[skip]);
    assert(layout.other.ops[branch] == layout.patched.ops[branch]);
    assert forall|i: int| state.ops.len() <= i < layout.tested.ops.len() implies ops[i]
        == layout.tested.ops[i] by {
        assert(lowered.ops[i] == layout.other.ops[i]);
        assert(layout.other.ops[i] == layout.patched.ops[i]);
        assert(layout.patched.ops[i] == skipped.ops[i]);
        assert(layout.taken.ops[i] == layout.start.ops[i]);
    }
    assert forall|i: int|
        state.constants.len() <= i < layout.tested.constants.len() implies constants[i]
        == layout.tested.constants[i] by {
        assert(lowered.constants[i] == layout.other.constants[i]);
        assert(layout.other.constants[i] == layout.patched.constants[i]);
        assert(layout.taken.constants[i] == layout.start.constants[i]);
    }
    assert forall|i: int| layout.start.ops.len() <= i < layout.taken.ops.len() implies ops[i]
        == layout.taken.ops[i] by {
        assert(lowered.ops[i] == layout.other.ops[i]);
        assert(layout.other.ops[i] == layout.patched.ops[i]);
        assert(layout.patched.ops[i] == skipped.ops[i]);
    }
    assert forall|i: int|
        layout.start.constants.len() <= i < layout.taken.constants.len() implies constants[i]
        == layout.taken.constants[i] by {
        assert(lowered.constants[i] == layout.other.constants[i]);
        assert(layout.other.constants[i] == layout.patched.constants[i]);
    }
    assert forall|i: int| layout.patched.ops.len() <= i < layout.other.ops.len() implies ops[i]
        == layout.other.ops[i] by {
        assert(lowered.ops[i] == layout.other.ops[i]);
    }
}

/// One instruction of a run.
pub proof fn lemma_one_step(m: MachineView, fuel: nat)
    ensures
        fuel == 0 ==> gave_up(m, fuel),
        fuel > 0 ==> match step(m) {
            Step::Next(next) => run_from(m, fuel) == run_from(next, (fuel - 1) as nat),
            Step::Done(value, last) => run_from(m, fuel).result == Ok::<
                ObjectView,
                crate::vm::ErrorView,
            >(value),
            Step::Fail(error, _) => run_from(m, fuel).result == Err::<ObjectView, crate::vm::ErrorView>(
                error,
            ),
        },
{
}

/// A machine placed twice is the machine placed the second time.
pub proof fn lemma_placed_twice(
    m: MachineView,
    first: Seq<SpannedObjectView>,
    at: int,
    second: Seq<SpannedObjectView>,
    then: int,
)
    requires
        m.frames.len() > 0,
    ensures
        placed(placed(m, first, at), second, then) == placed(m, second, then),
        placed(m, first, at).frames.len() == m.frames.len(),
        placed(m, first, at).frames.last().function == m.frames.last().function,
        placed(m, first, at).frames.last().locals == m.frames.last().locals,
        placed(m, first, at).frames.last().ip == at as usize,
        placed(m, first, at).constants == m.constants,
        placed(m, first, at).capacity == m.capacity,
        placed(m, first, at).stack == first,
{
    assert(placed(placed(m, first, at), second, then).frames =~= placed(m, second, then).frames);
}

/// An instruction that pushes `value` and moves on.
pub proof fn lemma_step_pushes(m: MachineView, fuel: nat, value: SpannedObjectView)
    requires
        m.running(),
        m.frames.last().function.ops.len() <= usize::MAX,
        step(m) == m.push_next(value),
    ensures
        (fuel == 0 || m.stack.len() >= m.capacity) ==> gave_up(m, fuel),
        (fuel > 0 && m.stack.len() < m.capacity) ==> run_from(m, fuel) == run_from(
            placed(m, m.stack.push(value), m.frames.last().ip + 1),
            (fuel - 1) as nat,
        ),
{
    lemma_one_step(m, fuel);
    if m.stack.len() < m.capacity {
        let next = m.with_stack(m.stack.push(value)).advance();
        assert(next.frames =~= placed(m, m.stack.push(value), m.frames.last().ip + 1).frames);
    }
}

/// An instruction that takes `taken` values off the stack `below` plus
/// those values, pushes `value` and moves on.
pub proof fn lemma_step_replaces(
    m: MachineView,
    fuel: nat,
    below: Seq<SpannedObjectView>,
    value: SpannedObjectView,
)
    requires
        m.running(),
        m.frames.last().function.ops.len() <= usize::MAX,
        step(m) == m.with_stack(below).push_next(value),
    ensures
        (fuel == 0 || below.len() >= m.capacity) ==> gave_up(m, fuel),
        (fuel > 0 && below.len() < m.capacity) ==> run_from(m, fuel) == run_from(
            placed(m, below.push(value), m.frames.last().ip + 1),
            (fuel - 1) as nat,
        ),
{
    lemma_one_step(m, fuel);
    if below.len() < m.capacity {
        let next = m.with_stack(below).with_stack(below.push(value)).advance();
        assert(next.frames =~= placed(m, below.push(value), m.frames.last().ip + 1).frames);
    }
}

/// An instruction that leaves the machine with the stack `stack` at `target`.
pub proof fn lemma_step_moves(
    m: MachineView,
    fuel: nat,
    stack: Seq<SpannedObjectView>,
    target: int,
)
    requires
        m.running(),
        0 <= target <= usize::MAX,
        step(m) == Step::Next(m.with_stack(stack).jump(target as usize)),
    ensures
        fuel == 0 ==> gave_up(m, fuel),
        fuel > 0 ==> run_from(m, fuel) == run_from(placed(m, stack, target), (fuel - 1) as nat),
{
    lemma_one_step(m, fuel);
    assert(m.with_stack(stack).jump(target as usize).frames =~= placed(m, stack, target).frames);
}

/// Whether a run from `m` has come, after the steps of `progress`, to the
/// address `end` with `value` pushed; or has given up.
pub open spec fn ran_to(
    m: MachineView,
    fuel: nat,
    progress: Progress,
    value: ObjectView,
    end: int,
) -> bool {
    &&& !progress.reached ==> gave_up(m, fuel)
    &&& progress.reached ==> progress.steps <= fuel && run_from(m, fuel) == run_from(
        placed(m, m.stack.push(SpannedObjectView { object: value, span: progress.span }), end),
        (fuel - progress.steps) as nat,
    )
}

/// What must hold of a machine that is about to run the code of `expr`.
pub open spec fn ready(
    vars: Seq<(Seq<char>, ObjectView)>,
    expr: ExpressionView,
    state: Emitted,
    m: MachineView,
) -> bool {
    &&& is_plain(expr)
    &&& value_of(vars, expr) is Some
    &&& m.frames.len() > 0
    &&& m.frames.last().ip == state.ops.len()
    &&& m.frames.last().locals == vars
    &&& holds_code(m.frames.last().function.ops, m.constants, expr, state)
}

/// The run of the instruction of a literal.
pub proof fn lemma_run_literal(
    vars: Seq<(Seq<char>, ObjectView)>,
    expr: ExpressionView,
    state: Emitted,
    m: MachineView,
    fuel: nat,
) -> (progress: Progress)
    requires
        ready(vars, expr, state, m),
        expr is Integer || expr is String || expr is Boolean || expr is Null || expr is Identifier,
    ensures
        ran_to(m, fuel, progress, value_of(vars, expr)->0, lower_expr(expr, None, state).ops.len() as int),
{
    let ops = m.frames.last().function.ops;
    let at = state.ops.len() as int;
    match expr {
        ExpressionView::Identifier(name) => {
            let span = name.span();
            let pushed = SpannedObjectView { object: value_of(vars, expr)->0, span };
            assert(ops[at] == OpView::Get { name: name.value, span });
            assert(step(m) == crate::vm::get_step(m, name.value, span));
            lemma_step_pushes(m, fuel, pushed);
            Progress { reached: fuel > 0 && m.stack.len() < m.capacity, steps: 1, span }
        },
        ExpressionView::Integer { span, value: number } => {
            let pushed = SpannedObjectView { object: ObjectView::Integer(number), span };
            assert(ops[at] == OpView::Constant(state.constants.len() as usize));
            assert(m.constants[state.constants.len() as int] == pushed);
            lemma_step_pushes(m, fuel, pushed);
            Progress { reached: fuel > 0 && m.stack.len() < m.capacity, steps: 1, span }
        },
        ExpressionView::String { span, value: text } => {
            let pushed = SpannedObjectView { object: ObjectView::String(text), span };
            assert(ops[at] == OpView::Constant(state.constants.len() as usize));
            assert(m.constants[state.constants.len() as int] == pushed);
            lemma_step_pushes(m, fuel, pushed);
            Progress { reached: fuel > 0 && m.stack.len() < m.capacity, steps: 1, span }
        },
        ExpressionView::Boolean { span, value: truth } => {
            let pushed = SpannedObjectView { object: ObjectView::Boolean(truth), span };
            assert(ops[at] == if truth {
                OpView::True(span)
            } else {
                OpView::False(span)
            });
            lemma_step_pushes(m, fuel, pushed);
            Progress { reached: fuel > 0 && m.stack.len() < m.capacity, steps: 1, span }
        },
        ExpressionView::Null { span } => {
            let pushed = SpannedObjectView { object: ObjectView::Null, span };
            assert(ops[at] == OpView::Null(span));
            lemma_step_pushes(m, fuel, pushed);
            Progress { reached: fuel > 0 && m.stack.len() < m.capacity, steps: 1, span }
        },
        _ => Progress { reached: false, steps: 0, span: Span { start: 0, end: 0 } },
    }
}

/// The run of a unary operator, once its operand has been run.
pub proof fn lemma_run_prefix(vars: Seq<(Seq<char>, ObjectView)>, expr: ExpressionView,
    state: Emitted,
    m: MachineView,
    fuel: nat,
    first: Progress,
) -> (progress: Progress)
    requires
        ready(vars, expr, state, m),
        expr is Prefix,
        first.reached,
        ran_to(
            m,
            fuel,
            first,
            value_of(vars, *expr->operand)->0,
            lower_expr(*expr->operand, None, state).ops.len() as int,
        ),
    ensures
        ran_to(m, fuel, progress, value_of(vars, expr)->0, lower_expr(expr, None, state).ops.len() as int),
{
    let ops = m.frames.last().function.ops;
    let operand = *expr->operand;
    let operator = expr->Prefix_operator;
    let value = value_of(vars, expr)->0;
    lemma_holds_prefix(ops, m.constants, expr, state);
    let inner = lower_expr(operand, None, state);
    let lowered = lower_expr(expr, None, state);
    let pushed = SpannedObjectView { object: value_of(vars, operand)->0, span: first.span };
    let m1 = placed(m, m.stack.push(pushed), inner.ops.len() as int);
    let fuel1 = (fuel - first.steps) as nat;
    let span = expr.span();
    let result = SpannedObjectView { object: value, span };
    lemma_placed_twice(
        m,
        m.stack.push(pushed),
        inner.ops.len() as int,
        m.stack.push(result),
        lowered.ops.len() as int,
    );
    assert(m1.stack.drop_last() =~= m.stack);
    assert(m1.running());
    assert(step(m1) == unary_step(m1, operator, span));
    lemma_step_replaces(m1, fuel1, m.stack, result);
    Progress { reached: fuel1 > 0 && m.stack.len() < m.capacity, steps: first.steps + 1, span }
}

/// The machine after the first operand of a binary operator has been run.
pub open spec fn after_head(
    vars: Seq<(Seq<char>, ObjectView)>,
    expr: ExpressionView,
    state: Emitted,
    m: MachineView,
    first: Progress,
) -> MachineView {
    placed(
        m,
        m.stack.push(SpannedObjectView { object: value_of(vars, head_of(expr))->0, span: first.span }),
        lower_expr(head_of(expr), None, state).ops.len() as int,
    )
}

/// The machine is ready for the second operand once the first has been run.
pub proof fn lemma_ready_for_tail(
    vars: Seq<(Seq<char>, ObjectView)>,
    expr: ExpressionView,
    state: Emitted,
    m: MachineView,
    first: Progress,
)
    requires
        ready(vars, expr, state, m),
        expr is Infix,
    ensures
        ready(vars, head_of(expr), state, m),
        ready(
            vars,
            tail_of(expr),
            lower_expr(head_of(expr), None, state),
            after_head(vars, expr, state, m, first),
        ),
        decreases_to!(expr => head_of(expr)),
        decreases_to!(expr => tail_of(expr)),
{
    let ops = m.frames.last().function.ops;
    lemma_holds_infix(ops, m.constants, expr, state);
    let middle = lower_expr(head_of(expr), None, state);
    lemma_placed_twice(
        m,
        m.stack.push(SpannedObjectView { object: value_of(vars, head_of(expr))->0, span: first.span }),
        middle.ops.len() as int,
        m.stack,
        0,
    );
}

/// The run of a binary operator, once its operands have been run.
pub proof fn lemma_run_infix(vars: Seq<(Seq<char>, ObjectView)>, expr: ExpressionView,
    state: Emitted,
    m: MachineView,
    fuel: nat,
    first: Progress,
    second: Progress,
) -> (progress: Progress)
    requires
        ready(vars, expr, state, m),
        expr is Infix,
        first.reached,
        ran_to(
            m,
            fuel,
            first,
            value_of(vars, head_of(expr))->0,
            lower_expr(head_of(expr), None, state).ops.len() as int,
        ),
        ran_to(
            after_head(vars, expr, state, m, first),
            (fuel - first.steps) as nat,
            second,
            value_of(vars, tail_of(expr))->0,
            lower_expr(tail_of(expr), None, lower_expr(head_of(expr), None, state)).ops.len() as int,
        ),
    ensures
        ran_to(m, fuel, progress, value_of(vars, expr)->0, lower_expr(expr, None, state).ops.len() as int),
{
    let ops = m.frames.last().function.ops;
    let operator = expr->Infix_operator;
    let value = value_of(vars, expr)->0;
    lemma_holds_infix(ops, m.constants, expr, state);
    let head = head_of(expr);
    let tail = tail_of(expr);
    let middle = lower_expr(head, None, state);
    let both = lower_expr(tail, None, middle);
    let lowered = lower_expr(expr, None, state);
    let one = SpannedObjectView { object: value_of(vars, head)->0, span: first.span };
    let m1 = after_head(vars, expr, state, m, first);
    let fuel1 = (fuel - first.steps) as nat;
    if !second.reached {
        Progress { reached: false, steps: 0, span: first.span }
    } else {
        let two = SpannedObjectView { object: value_of(vars, tail)->0, span: second.span };
        let stack2 = m.stack.push(one).push(two);
        let m2 = placed(m1, stack2, both.ops.len() as int);
        let fuel2 = (fuel1 - second.steps) as nat;
        let span = one.span.spec_join(two.span);
        let result = SpannedObjectView { object: value, span };
        lemma_placed_twice(
            m,
            m.stack.push(one),
            middle.ops.len() as int,
            stack2,
            both.ops.len() as int,
        );
        lemma_placed_twice(
            m,
            stack2,
            both.ops.len() as int,
            m.stack.push(result),
            lowered.ops.len() as int,
        );
        assert(stack2.take(stack2.len() - 2) =~= m.stack);
        lemma_acts_alike(vars, operator, *expr->left, *expr->right, one.span, two.span);
        let acts = crate::code::infix_of_op(op_of_infix(operator))->0;
        assert(m2 == placed(m, stack2, both.ops.len() as int));
        assert(m2.running());
        assert(step(m2) == binary_step(m2, acts));
        lemma_step_replaces(m2, fuel2, m.stack, result);
        Progress {
            reached: fuel2 > 0 && m.stack.len() < m.capacity,
            steps: first.steps + second.steps + 1,
            span,
        }
    }
}

/// The branch of a plain `if` that is taken.
pub open spec fn branch_of(
    vars: Seq<(Seq<char>, ObjectView)>,
    expr: ExpressionView,
) -> ExpressionView {
    if value_of(vars, *expr->condition)->0.truthy() {
        inner_of(expr->consequence)
    } else {
        inner_of(expr->alternative->0)
    }
}

/// The state in which the branch that is taken was lowered.
pub open spec fn branch_state(
    vars: Seq<(Seq<char>, ObjectView)>,
    expr: ExpressionView,
    state: Emitted,
) -> Emitted {
    let layout = layout_of(*expr->condition, expr->consequence, expr->alternative->0, state);
    if value_of(vars, *expr->condition)->0.truthy() {
        layout.start
    } else {
        layout.patched
    }
}

/// The machine at the start of the branch that is taken.
pub open spec fn at_branch(
    vars: Seq<(Seq<char>, ObjectView)>,
    expr: ExpressionView,
    state: Emitted,
    m: MachineView,
) -> MachineView {
    placed(m, m.stack, branch_state(vars, expr, state).ops.len() as int)
}

/// The condition of a plain `if` is ready to run.
pub proof fn lemma_ready_for_condition(
    vars: Seq<(Seq<char>, ObjectView)>,
    expr: ExpressionView,
    state: Emitted,
    m: MachineView,
)
    requires
        ready(vars, expr, state, m),
        expr is If,
    ensures
        ready(vars, *expr->condition, state, m),
        ready(vars, branch_of(vars, expr), branch_state(vars, expr, state), at_branch(vars, expr, state, m)),
        decreases_to!(expr => *expr->condition),
        decreases_to!(expr => branch_of(vars, expr)),
        value_of(vars, branch_of(vars, expr)) == value_of(vars, expr),
{
    let ops = m.frames.last().function.ops;
    lemma_holds_if(ops, m.constants, expr, state);
    lemma_inner_is_smaller(expr->consequence);
    lemma_inner_is_smaller(expr->alternative->0);
    lemma_placed_twice(m, m.stack, branch_state(vars, expr, state).ops.len() as int, m.stack, 0);
    assert(decreases_to!(expr => expr->consequence));
    assert(decreases_to!(expr => expr->alternative));
    assert(decreases_to!(expr->alternative => expr->alternative->0));
}

/// The run of a plain `if` from its start to the start of the branch that
/// is taken, once the condition has been run.
pub proof fn lemma_run_to_branch(vars: Seq<(Seq<char>, ObjectView)>, expr: ExpressionView,
    state: Emitted,
    m: MachineView,
    fuel: nat,
    first: Progress,
)
    requires
        ready(vars, expr, state, m),
        expr is If,
        first.reached,
        ran_to(
            m,
            fuel,
            first,
            value_of(vars, *expr->condition)->0,
            lower_expr(*expr->condition, None, state).ops.len() as int,
        ),
    ensures
        fuel <= first.steps ==> gave_up(m, fuel),
        fuel > first.steps ==> run_from(m, fuel) == run_from(
            at_branch(vars, expr, state, m),
            (fuel - first.steps - 1) as nat,
        ),
{
    let ops = m.frames.last().function.ops;
    lemma_holds_if(ops, m.constants, expr, state);
    let layout = layout_of(*expr->condition, expr->consequence, expr->alternative->0, state);
    let branch = layout.tested.ops.len() as int;
    let skip = layout.taken.ops.len() as int;
    let test = value_of(vars, *expr->condition)->0;
    let one = SpannedObjectView { object: test, span: first.span };
    let m1 = placed(m, m.stack.push(one), branch);
    let fuel1 = (fuel - first.steps) as nat;
    lemma_placed_twice(m, m.stack.push(one), branch, m.stack, 0);
    assert(m1.stack.drop_last() =~= m.stack);
    assert(m1.running());
    assert(step(m1) == branch_step(m1, (skip + 1) as usize));
    if test.truthy() {
        lemma_step_moves(m1, fuel1, m.stack, branch + 1);
        lemma_placed_twice(m, m.stack.push(one), branch, m.stack, branch + 1);
    } else {
        lemma_step_moves(m1, fuel1, m.stack, skip + 1);
        lemma_placed_twice(m, m.stack.push(one), branch, m.stack, skip + 1);
    }
}

/// The run of a plain `if` from the end of the branch that was taken to
/// the end of the whole.
pub proof fn lemma_run_from_branch(vars: Seq<(Seq<char>, ObjectView)>, expr: ExpressionView,
    state: Emitted,
    m: MachineView,
    fuel: nat,
    second: Progress,
) -> (progress: Progress)
    requires
        ready(vars, expr, state, m),
        expr is If,
        ran_to(
            at_branch(vars, expr, state, m),
            fuel,
            second,
            value_of(vars, expr)->0,
            lower_expr(branch_of(vars, expr), None, branch_state(vars, expr, state)).ops.len() as int,
        ),
    ensures
        ran_to(
            at_branch(vars, expr, state, m),
            fuel,
            progress,
            value_of(vars, expr)->0,
            lower_expr(expr, None, state).ops.len() as int,
        ),
{
    let ops = m.frames.last().function.ops;
    lemma_holds_if(ops, m.constants, expr, state);
    let layout = layout_of(*expr->condition, expr->consequence, expr->alternative->0, state);
    let branch = layout.tested.ops.len() as int;
    let skip = layout.taken.ops.len() as int;
    let end = layout.other.ops.len() as int;
    let test = value_of(vars, *expr->condition)->0;
    let start = at_branch(vars, expr, state, m);
    lemma_placed_twice(m, m.stack, branch_state(vars, expr, state).ops.len() as int, m.stack, 0);
    if !second.reached {
        second
    } else if test.truthy() {
        let result = SpannedObjectView { object: value_of(vars, expr)->0, span: second.span };
        let m3 = placed(start, start.stack.push(result), skip);
        let fuel3 = (fuel - second.steps) as nat;
        lemma_placed_twice(m, m.stack, branch + 1, m.stack.push(result), skip);
        lemma_placed_twice(m, m.stack.push(result), skip, m.stack.push(result), end);
        lemma_placed_twice(m, m.stack, branch + 1, m.stack.push(result), end);
        assert(m3 == placed(m, m.stack.push(result), skip));
        assert(m3.running());
        assert(step(m3) == Step::Next(m3.with_stack(m.stack.push(result)).jump(end as usize)));
        lemma_step_moves(m3, fuel3, m.stack.push(result), end);
        Progress { reached: fuel3 > 0, steps: second.steps + 1, span: second.span }
    } else {
        second
    }
}

/// The run of the instructions of a plain expression that has a value: the
/// machine, from the start of the instructions, comes to their end with the
/// value pushed, unless its stack gets full or its allowance of
/// instructions is used up.
pub proof fn lemma_runs_to_value(vars: Seq<(Seq<char>, ObjectView)>, expr: ExpressionView,
    state: Emitted,
    m: MachineView,
    fuel: nat,
) -> (progress: Progress)
    requires
        ready(vars, expr, state, m),
    ensures
        ran_to(m, fuel, progress, value_of(vars, expr)->0, lower_expr(expr, None, state).ops.len() as int),
    decreases expr,
{
    match expr {
        ExpressionView::Prefix { operand, .. } => {
            lemma_holds_prefix(m.frames.last().function.ops, m.constants, expr, state);
            let first = lemma_runs_to_value(vars, *operand, state, m, fuel);
            if !first.reached {
                first
            } else {
                lemma_run_prefix(vars, expr, state, m, fuel, first)
            }
        },
        ExpressionView::Infix { .. } => {
            let unset = Progress { reached: false, steps: 0, span: Span { start: 0, end: 0 } };
            lemma_ready_for_tail(vars, expr, state, m, unset);
            let first = lemma_runs_to_value(vars, head_of(expr), state, m, fuel);
            if !first.reached {
                first
            } else {
                lemma_ready_for_tail(vars, expr, state, m, first);
                let second = lemma_runs_to_value(vars, tail_of(expr),
                    lower_expr(head_of(expr), None, state),
                    after_head(vars, expr, state, m, first),
                    (fuel - first.steps) as nat,
                );
                lemma_run_infix(vars, expr, state, m, fuel, first, second)
            }
        },
        ExpressionView::If { condition, .. } => {
            lemma_ready_for_condition(vars, expr, state, m);
            let first = lemma_runs_to_value(vars, *condition, state, m, fuel);
            if !first.reached {
                first
            } else {
                lemma_run_to_branch(vars, expr, state, m, fuel, first);
                if fuel <= first.steps {
                    Progress { reached: false, steps: 0, span: first.span }
                } else {
                    let left = (fuel - first.steps - 1) as nat;
                    let start = at_branch(vars, expr, state, m);
                    let second = lemma_runs_to_value(vars, branch_of(vars, expr),
                        branch_state(vars, expr, state),
                        start,
                        left,
                    );
                    let third = lemma_run_from_branch(vars, expr, state, m, left, second);
                    lemma_placed_twice(
                        m,
                        m.stack,
                        branch_state(vars, expr, state).ops.len() as int,
                        m.stack.push(
                            SpannedObjectView { object: value_of(vars, expr)->0, span: third.span },
                        ),
                        lower_expr(expr, None, state).ops.len() as int,
                    );
                    Progress {
                        reached: third.reached,
                        steps: first.steps + 1 + third.steps,
                        span: third.span,
                    }
                }
            }
        },
        _ => lemma_run_literal(vars, expr, state, m, fuel),
    }
}

/// What the instruction of a binary operator makes of the values of the
/// operands as the machine finds them: what the operator makes of them in
/// source order. The comparison `<` is carried out as `>` with the operands
/// exchanged.
pub proof fn lemma_acts_alike(vars: Seq<(Seq<char>, ObjectView)>, operator: InfixOperator,
    left: ExpressionView,
    right: ExpressionView,
    first_span: Span,
    second_span: Span,
)
    requires
        value_of(vars, left) is Some,
        value_of(vars, right) is Some,
        infix_result(operator, value_of(vars, left)->0, value_of(vars, right)->0) is Ok,
    ensures
        ({
            let acts = crate::code::infix_of_op(op_of_infix(operator))->0;
            let swapped = operator == InfixOperator::LT;
            let one = SpannedObjectView {
                object: if swapped {
                    value_of(vars, right)->0
                } else {
                    value_of(vars, left)->0
                },
                span: first_span,
            };
            let two = SpannedObjectView {
                object: if swapped {
                    value_of(vars, left)->0
                } else {
                    value_of(vars, right)->0
                },
                span: second_span,
            };
            machine_infix(acts, one, two) == infix_result(
                operator,
                value_of(vars, left)->0,
                value_of(vars, right)->0,
            )
        }),
{
}

/// Whether a statement is plain: a `let` with a plain value, or a plain
/// expression.
pub open spec fn is_plain_statement(statement: StatementView) -> bool {
    match statement {
        StatementView::Let { value, .. } => is_plain(value),
        StatementView::Expression(value) => is_plain(value),
        StatementView::Return { .. } => false,
    }
}

/// Whether all statements are plain.
pub open spec fn is_plain_program(statements: Seq<StatementView>) -> bool {
    forall|i: int| 0 <= i < statements.len() ==> is_plain_statement(#[trigger] statements[i])
}

/// The expression of a statement.
pub open spec fn expression_of(statement: StatementView) -> ExpressionView {
    match statement {
        StatementView::Let { value, .. } => value,
        StatementView::Return { value, .. } => value,
        StatementView::Expression(value) => value,
    }
}

/// The names as a statement leaves them bound, where its expression has
/// the value `value`.
pub open spec fn vars_after(
    vars: Seq<(Seq<char>, ObjectView)>,
    statement: StatementView,
    value: ObjectView,
) -> Seq<(Seq<char>, ObjectView)> {
    match statement {
        StatementView::Let { name, .. } => bind(vars, name.value, value),
        _ => vars,
    }
}

/// What a statement comes to, where its expression has the value `value`.
pub open spec fn value_after(statement: StatementView, value: ObjectView) -> ObjectView {
    match statement {
        StatementView::Let { .. } => ObjectView::Null,
        _ => value,
    }
}

/// What plain statements from `from` on come to, after earlier ones have
/// come to `last`: the value of the last one, if every expression has a
/// value.
pub open spec fn outcome_of(
    statements: Seq<StatementView>,
    from: int,
    vars: Seq<(Seq<char>, ObjectView)>,
    last: ObjectView,
) -> Option<ObjectView>
    decreases statements.len() - from,
{
    if 0 <= from < statements.len() {
        match value_of(vars, expression_of(statements[from])) {
            Some(value) => outcome_of(
                statements,
                from + 1,
                vars_after(vars, statements[from], value),
                value_after(statements[from], value),
            ),
            None => None,
        }
    } else {
        Some(last)
    }
}

/// Once a statement has failed, the statements come to errors.
pub proof fn lemma_errors_stay(
    env: EnvironmentView,
    statements: Seq<StatementView>,
    from: int,
    errors: Seq<ErrorView>,
    last: ObjectView,
    depth: nat,
    printed: Seq<Seq<char>>,
)
    requires
        errors.len() > 0,
    ensures
        walked_to(exec_statements(env, statements, from, errors, last, depth, printed).result, None),
    decreases statements.len() - from,
{
    if 0 <= from < statements.len() {
        let step = exec_statement(env, statements[from], depth, printed);
        match step.result {
            Ok(ObjectView::Return(_)) => {},
            Ok(value) => {
                lemma_errors_stay(step.env, statements, from + 1, errors, value, depth, step.printed);
            },
            Err(more) => {
                lemma_errors_stay(
                    step.env,
                    statements,
                    from + 1,
                    errors + more,
                    last,
                    depth,
                    step.printed,
                );
            },
        }
    }
}

/// What the tree walker makes of one plain statement.
pub proof fn lemma_walks_statement(
    vars: Seq<(Seq<char>, ObjectView)>,
    env: EnvironmentView,
    statement: StatementView,
    depth: nat,
    printed: Seq<Seq<char>>,
)
    requires
        is_plain_statement(statement),
        plain_vars(vars),
        env.outer is None,
        env.values == vars,
    ensures
        ({
            let step = exec_statement(env, statement, depth, printed);
            match value_of(vars, expression_of(statement)) {
                Some(value) => {
                    &&& is_plain_value(value)
                    &&& step.result == Ok::<ObjectView, Seq<ErrorView>>(
                        value_after(statement, value),
                    )
                    &&& step.env.outer is None
                    &&& step.env.values == vars_after(vars, statement, value)
                },
                None => walked_to(step.result, None),
            }
        }),
{
    let expr = expression_of(statement);
    lemma_value_is_plain(vars, expr);
    lemma_walks_to_value(vars, env, expr, depth, printed);
    match statement {
        StatementView::Let { name, value, .. } => {
            assert(eval_expr(env, value, Some(name), depth, printed) == eval_expr(
                env,
                value,
                None,
                depth,
                printed,
            ));
        },
        _ => {},
    }
}

/// The tree walker gives plain statements, run in an environment of one
/// scope, what they come to; where an expression has no value, it comes to
/// at least one error.
pub proof fn lemma_walks_statements(
    vars: Seq<(Seq<char>, ObjectView)>,
    env: EnvironmentView,
    statements: Seq<StatementView>,
    from: int,
    last: ObjectView,
    depth: nat,
    printed: Seq<Seq<char>>,
)
    requires
        is_plain_program(statements),
        plain_vars(vars),
        is_plain_value(last),
        env.outer is None,
        env.values == vars,
        0 <= from,
    ensures
        walked_to(
            exec_statements(env, statements, from, Seq::empty(), last, depth, printed).result,
            outcome_of(statements, from, vars, last),
        ),
        outcome_of(statements, from, vars, last) matches Some(value) ==> is_plain_value(value),
    decreases statements.len() - from,
{
    if from < statements.len() {
        let statement = statements[from];
        lemma_walks_statement(vars, env, statement, depth, printed);
        let step = exec_statement(env, statement, depth, printed);
        match value_of(vars, expression_of(statement)) {
            Some(value) => {
                match statement {
                    StatementView::Let { name, .. } => {
                        lemma_bind_keeps_plain(vars, name.value, value);
                    },
                    _ => {},
                }
                lemma_walks_statements(
                    vars_after(vars, statement, value),
                    step.env,
                    statements,
                    from + 1,
                    value_after(statement, value),
                    depth,
                    step.printed,
                );
            },
            None => {
                let more = step.result->Err_0;
                assert(Seq::<ErrorView>::empty() + more =~= more);
                lemma_errors_stay(step.env, statements, from + 1, more, last, depth, step.printed);
            },
        }
    }
}

/// The instructions for the statements from `from` on, written after those
/// of `state`.
pub open spec fn lower_all(statements: Seq<StatementView>, from: int, state: Emitted) -> Emitted
    decreases statements.len() - from,
{
    if 0 <= from < statements.len() {
        lower_all(statements, from + 1, lower_statement(statements[from], state))
    } else {
        state
    }
}

/// The instruction that ends a plain statement.
pub open spec fn closing_of(statement: StatementView) -> OpView {
    match statement {
        StatementView::Let { name, .. } => OpView::Bind(name.value),
        _ => OpView::Pop,
    }
}

/// The instructions of a plain statement are those of its expression
/// followed by the one that ends it.
pub proof fn lemma_lower_plain_statement(statement: StatementView, state: Emitted)
    requires
        is_plain_statement(statement),
    ensures
        lower_statement(statement, state) == crate::compiler::emit(
            lower_expr(expression_of(statement), None, state),
            closing_of(statement),
        ),
{
    match statement {
        StatementView::Let { name, value, .. } => {
            assert(lower_expr(value, Some(name.value), state) == lower_expr(value, None, state));
        },
        _ => {},
    }
}

/// Lowering plain statements keeps the instructions and the constants that
/// were there, and adds at least two instructions for each statement.
pub proof fn lemma_lower_all_keeps(statements: Seq<StatementView>, from: int, state: Emitted)
    requires
        is_plain_program(statements),
        0 <= from <= statements.len(),
    ensures
        lower_all(statements, from, state).ops.len() >= state.ops.len() + 2 * (statements.len()
            - from),
        lower_all(statements, from, state).constants.len() >= state.constants.len(),
        forall|i: int|
            0 <= i < state.ops.len() ==> lower_all(statements, from, state).ops[i] == state.ops[i],
        forall|i: int|
            0 <= i < state.constants.len() ==> lower_all(statements, from, state).constants[i]
                == state.constants[i],
        from < statements.len() ==> lower_all(statements, from, state).ops.len() > 0 && (
        lower_all(statements, from, state).ops.last() == closing_of(statements.last())),
        crate::compiler::lower_statements(statements, from, state, None).0 == lower_all(
            statements,
            from,
            state,
        ),
    decreases statements.len() - from,
{
    if from < statements.len() {
        let statement = statements[from];
        let expr = expression_of(statement);
        lemma_lower_plain_statement(statement, state);
        lemma_lower_keeps(expr, state);
        let next = lower_statement(statement, state);
        lemma_lower_all_keeps(statements, from + 1, next);
        lemma_kind_is_beside_the_point(
            statements,
            from + 1,
            next,
            None,
            Some(crate::compiler::kind_of(statement)),
        );
        let lowered = lower_expr(expr, None, state);
        assert forall|i: int| 0 <= i < state.ops.len() implies lower_all(statements, from, state).ops[i]
            == state.ops[i] by {
            assert(next.ops[i] == lowered.ops[i]);
        }
    }
}

/// The instructions for statements do not depend on the form of the
/// statement before them.
pub proof fn lemma_kind_is_beside_the_point(
    statements: Seq<StatementView>,
    from: int,
    state: Emitted,
    one: Option<crate::compiler::StatementKind>,
    other: Option<crate::compiler::StatementKind>,
)
    requires
        is_plain_program(statements),
    ensures
        crate::compiler::lower_statements(statements, from, state, one).0
            == crate::compiler::lower_statements(statements, from, state, other).0,
        0 <= from < statements.len() ==> crate::compiler::lower_statements(
            statements,
            from,
            state,
            one,
        ).1 == Some(crate::compiler::kind_of(statements.last())),
        !(0 <= from < statements.len()) ==> crate::compiler::lower_statements(
            statements,
            from,
            state,
            one,
        ).1 == one,
    decreases statements.len() - from,
{
    if 0 <= from < statements.len() {
        let next = lower_statement(statements[from], state);
        let kind = Some(crate::compiler::kind_of(statements[from]));
        lemma_kind_is_beside_the_point(statements, from + 1, next, kind, kind);
    }
}

/// How many instructions the compiler takes off the end of the statements'
/// instructions: the `Pop` of a last statement that is an expression.
pub open spec fn cut_of(statements: Seq<StatementView>) -> int {
    if statements.len() > 0 && statements.last() is Expression {
        1
    } else {
        0
    }
}

/// Whether the machine `m` is about to run the statements from `from` on,
/// whose instructions were written after those of `state`.
pub open spec fn ready_to_run(
    vars: Seq<(Seq<char>, ObjectView)>,
    statements: Seq<StatementView>,
    from: int,
    state: Emitted,
    m: MachineView,
) -> bool {
    let lowered = lower_all(statements, from, state);
    let ops = m.frames.last().function.ops;
    &&& m.frames.len() > 0
    &&& m.stack.len() == 0
    &&& m.frames.last().locals == vars
    &&& m.frames.last().ip == state.ops.len()
    &&& ops.len() <= usize::MAX
    &&& m.constants.len() <= usize::MAX
    &&& ops.len() + cut_of(statements) == lowered.ops.len()
    &&& lowered.constants.len() <= m.constants.len()
    &&& forall|i: int| state.ops.len() <= i < ops.len() ==> ops[i] == lowered.ops[i]
    &&& forall|i: int|
        state.constants.len() <= i < lowered.constants.len() ==> m.constants[i]
            == lowered.constants[i]
}

/// A machine that is ready to run statements is ready to run the
/// expression of the first of them.
pub proof fn lemma_ready_for_statement(
    vars: Seq<(Seq<char>, ObjectView)>,
    statements: Seq<StatementView>,
    from: int,
    state: Emitted,
    m: MachineView,
)
    requires
        is_plain_program(statements),
        0 <= from < statements.len(),
        value_of(vars, expression_of(statements[from])) is Some,
        ready_to_run(vars, statements, from, state, m),
    ensures
        ({
            let statement = statements[from];
            let lowered = lower_expr(expression_of(statement), None, state);
            let ops = m.frames.last().function.ops;
            &&& ready(vars, expression_of(statement), state, m)
            &&& lower_statement(statement, state) == crate::compiler::emit(
                lowered,
                closing_of(statement),
            )
            &&& lowered.ops.len() <= ops.len()
            &&& lowered.ops.len() < ops.len() ==> ops[lowered.ops.len() as int] == closing_of(
                statement,
            )
            &&& lowered.ops.len() == ops.len() <==> from == statements.len() - 1 && statement is Expression
        }),
{
    let statement = statements[from];
    let expr = expression_of(statement);
    let lowered = lower_expr(expr, None, state);
    let next = lower_statement(statement, state);
    let all = lower_all(statements, from, state);
    let ops = m.frames.last().function.ops;
    lemma_lower_plain_statement(statement, state);
    lemma_lower_keeps(expr, state);
    lemma_lower_all_keeps(statements, from + 1, next);
    lemma_lower_all_keeps(statements, from, state);
    assert(all == lower_all(statements, from + 1, next));
    assert forall|i: int| state.ops.len() <= i < lowered.ops.len() implies ops[i]
        == lowered.ops[i] by {
        assert(all.ops[i] == next.ops[i]);
        assert(next.ops[i] == lowered.ops[i]);
    }
    assert forall|i: int|
        state.constants.len() <= i < lowered.constants.len() implies m.constants[i]
        == lowered.constants[i] by {
        assert(all.constants[i] == next.constants[i]);
    }
    if lowered.ops.len() < ops.len() {
        assert(all.ops[lowered.ops.len() as int] == next.ops[lowered.ops.len() as int]);
    }
}

/// The machine after it has run the statement whose instructions end
/// before `end`, and whose expression has the value `value`.
pub open spec fn after_statement(
    vars: Seq<(Seq<char>, ObjectView)>,
    statement: StatementView,
    m: MachineView,
    end: int,
    value: ObjectView,
) -> MachineView {
    MachineView {
        frames: m.frames.update(
            m.frames.len() - 1,
            FrameView {
                ip: end as usize,
                locals: vars_after(vars, statement, value),
                ..m.frames.last()
            },
        ),
        ..m
    }
}

/// The machine with the value of the expression of a statement pushed,
/// behind the instructions of the expression.
pub open spec fn before_closing(
    statement: StatementView,
    state: Emitted,
    m: MachineView,
    value: ObjectView,
    span: Span,
) -> MachineView {
    placed(
        m,
        m.stack.push(SpannedObjectView { object: value, span }),
        lower_expr(expression_of(statement), None, state).ops.len() as int,
    )
}

/// The run of the instruction that ends a plain statement, where the
/// statement is not an expression at the end of the program: it leaves the
/// machine ready to run the statements that follow.
pub proof fn lemma_statement_ends(
    vars: Seq<(Seq<char>, ObjectView)>,
    statements: Seq<StatementView>,
    from: int,
    state: Emitted,
    m: MachineView,
    fuel: nat,
    span: Span,
)
    requires
        is_plain_program(statements),
        0 <= from < statements.len(),
        !(from == statements.len() - 1 && statements[from] is Expression),
        value_of(vars, expression_of(statements[from])) is Some,
        ready_to_run(vars, statements, from, state, m),
    ensures
        ({
            let statement = statements[from];
            let value = value_of(vars, expression_of(statement))->0;
            let next = lower_statement(statement, state);
            let m1 = before_closing(statement, state, m, value, span);
            let m2 = after_statement(vars, statement, m, next.ops.len() as int, value);
            &&& fuel == 0 ==> gave_up(m1, fuel)
            &&& fuel > 0 ==> run_from(m1, fuel) == run_from(m2, (fuel - 1) as nat)
            &&& ready_to_run(
                vars_after(vars, statement, value),
                statements,
                from + 1,
                next,
                m2,
            )
        }),
{
    let statement = statements[from];
    let expr = expression_of(statement);
    let value = value_of(vars, expr)->0;
    let lowered = lower_expr(expr, None, state);
    let next = lower_statement(statement, state);
    let end = lowered.ops.len() as int;
    let pushed = SpannedObjectView { object: value, span };
    let m1 = before_closing(statement, state, m, value, span);
    let m2 = after_statement(vars, statement, m, next.ops.len() as int, value);
    lemma_ready_for_statement(vars, statements, from, state, m);
    lemma_placed_twice(m, m.stack.push(pushed), end, m.stack, end + 1);
    lemma_one_step(m1, fuel);
    lemma_lower_all_keeps(statements, from + 1, next);
    assert(m1.stack.drop_last() =~= m.stack);
    assert(m1.running());
    match statement {
        StatementView::Let { name, .. } => {
            assert(step(m1) == crate::vm::bind_step(m1, name.value));
        },
        _ => {},
    }
    let stepped = match step(m1) {
        Step::Next(machine) => machine,
        _ => m1,
    };
    assert(step(m1) is Next);
    assert(stepped.frames =~= m2.frames);
    assert(stepped.stack =~= m2.stack);
    assert(stepped == m2);
    let after = vars_after(vars, statement, value);
    let all = lower_all(statements, from + 1, next);
    assert(all == lower_all(statements, from, state));
    assert(m2.frames.last().function.ops == m.frames.last().function.ops);
    assert(m2.frames.last().locals == after);
    assert(m2.frames.last().ip == next.ops.len());
    assert(m2.constants == m.constants);
    lemma_lower_keeps(expr, state);
    lemma_lower_plain_statement(statement, state);
    let ops = m.frames.last().function.ops;
    assert(next.ops.len() >= state.ops.len());
    assert(next.constants.len() >= state.constants.len());
    assert(m2.stack.len() == 0);
    assert(ops.len() + cut_of(statements) == all.ops.len());
    assert(all.constants.len() <= m2.constants.len());
    assert forall|i: int| next.ops.len() <= i < ops.len() implies ops[i] == all.ops[i] by {}
    assert forall|i: int| next.constants.len() <= i < all.constants.len() implies m2.constants[i]
        == all.constants[i] by {}
    assert(ready_to_run(after, statements, from + 1, next, m2));
}

/// The run of a program that ends with a plain expression, from behind the
/// instructions of that expression: it ends with the value pushed.
pub proof fn lemma_last_expression_ends(
    vars: Seq<(Seq<char>, ObjectView)>,
    statements: Seq<StatementView>,
    state: Emitted,
    m: MachineView,
    fuel: nat,
    span: Span,
)
    requires
        is_plain_program(statements),
        statements.len() > 0,
        statements.last() is Expression,
        value_of(vars, expression_of(statements.last())) is Some,
        ready_to_run(vars, statements, statements.len() - 1, state, m),
    ensures
        ({
            let value = value_of(vars, expression_of(statements.last()))->0;
            let m1 = before_closing(statements.last(), state, m, value, span);
            run_from(m1, fuel).result == Ok::<ObjectView, crate::vm::ErrorView>(value) || gave_up(
                m1,
                fuel,
            )
        }),
{
    let statement = statements.last();
    let value = value_of(vars, expression_of(statement))->0;
    let lowered = lower_expr(expression_of(statement), None, state);
    let pushed = SpannedObjectView { object: value, span };
    let m1 = before_closing(statement, state, m, value, span);
    lemma_ready_for_statement(vars, statements, statements.len() - 1, state, m);
    lemma_placed_twice(m, m.stack.push(pushed), lowered.ops.len() as int, m.stack, 0);
    lemma_one_step(m1, fuel);
    assert(!m1.running());
    assert(m1.stack.last() == pushed);
}

/// The run of plain statements that come to a value: the machine, from the
/// start of their instructions, ends the run with that value, unless its
/// stack gets full or its allowance of instructions is used up.
pub proof fn lemma_runs_statements(
    vars: Seq<(Seq<char>, ObjectView)>,
    statements: Seq<StatementView>,
    from: int,
    state: Emitted,
    m: MachineView,
    fuel: nat,
    last: ObjectView,
)
    requires
        is_plain_program(statements),
        plain_vars(vars),
        0 <= from <= statements.len(),
        outcome_of(statements, from, vars, last) is Some,
        from == statements.len() ==> last == ObjectView::Null && cut_of(statements) == 0,
        ready_to_run(vars, statements, from, state, m),
    ensures
        run_from(m, fuel).result == Ok::<ObjectView, crate::vm::ErrorView>(
            outcome_of(statements, from, vars, last)->0,
        ) || gave_up(m, fuel),
    decreases statements.len() - from,
{
    if from < statements.len() {
        let statement = statements[from];
        let expr = expression_of(statement);
        let value = value_of(vars, expr)->0;
        let next = lower_statement(statement, state);
        lemma_value_is_plain(vars, expr);
        lemma_ready_for_statement(vars, statements, from, state, m);
        let first = lemma_runs_to_value(vars, expr, state, m, fuel);
        if first.reached {
            let fuel1 = (fuel - first.steps) as nat;
            let m1 = before_closing(statement, state, m, value, first.span);
            if from == statements.len() - 1 && statement is Expression {
                lemma_last_expression_ends(vars, statements, state, m, fuel1, first.span);
            } else {
                lemma_statement_ends(vars, statements, from, state, m, fuel1, first.span);
                if fuel1 > 0 {
                    let after = vars_after(vars, statement, value);
                    let m2 = after_statement(vars, statement, m, next.ops.len() as int, value);
                    match statement {
                        StatementView::Let { name, .. } => {
                            lemma_bind_keeps_plain(vars, name.value, value);
                        },
                        _ => {},
                    }
                    lemma_runs_statements(
                        after,
                        statements,
                        from + 1,
                        next,
                        m2,
                        (fuel1 - 1) as nat,
                        value_after(statement, value),
                    );
                }
            }
        }
    } else {
        lemma_one_step(m, fuel);
        assert(!m.running());
    }
}

/// The two engines agree on every plain program: one made of `let`
/// statements and expressions that name values, hold literals of integers,
/// booleans, strings and `null`, apply operators, and choose with `if` and
/// `else` between branches of one expression each. Where the tree walker,
/// started without bindings, gives such a program a value, the stack
/// machine, run on the compiled program, gives it the same value, unless
/// its stack gets full or its allowance of instructions is used up.
pub proof fn law_engines_agree(
    program: ProgramView,
    printed: Seq<Seq<char>>,
    capacity: usize,
    fuel: nat,
)
    requires
        is_plain_program(program.statements),
        exec_program(
            EnvironmentView { outer: None, values: Seq::empty() },
            program,
            printed,
        ).result is Ok,
        compiled(Seq::empty(), program).ops.len() <= usize::MAX,
        compiled(Seq::empty(), program).constants.len() <= usize::MAX,
    ensures
        ({
            let walked = exec_program(
                EnvironmentView { outer: None, values: Seq::empty() },
                program,
                printed,
            ).result;
            let ran = run_from(crate::vm::started(compiled(Seq::empty(), program), capacity), fuel).result;
            ||| ran == Ok::<ObjectView, crate::vm::ErrorView>(walked->Ok_0)
            ||| ran == Err::<ObjectView, crate::vm::ErrorView>(crate::vm::ErrorView::Overflow)
            ||| ran == Err::<ObjectView, crate::vm::ErrorView>(crate::vm::ErrorView::StepLimit)
        }),
{
    let statements = program.statements;
    let env = EnvironmentView { outer: None, values: Seq::empty() };
    let vars = Seq::<(Seq<char>, ObjectView)>::empty();
    let depth = crate::eval::MAX_CALL_DEPTH as nat;
    let state = Emitted { ops: Seq::empty(), constants: Seq::empty() };
    lemma_walks_statements(vars, env, statements, 0, ObjectView::Null, depth, printed);
    let outcome = outcome_of(statements, 0, vars, ObjectView::Null);
    assert(outcome is Some);
    let all = lower_all(statements, 0, state);
    lemma_lower_all_keeps(statements, 0, state);
    lemma_kind_is_beside_the_point(statements, 0, state, None, None);
    let body = lower_body(statements, state);
    let code = compiled(Seq::empty(), program);
    if cut_of(statements) == 1 {
        assert(code.ops =~= all.ops.drop_last());
    } else {
        assert(code.ops =~= all.ops);
    }
    assert(code.constants == all.constants);
    let m = crate::vm::started(code, capacity);
    assert(ready_to_run(vars, statements, 0, state, m));
    lemma_runs_statements(vars, statements, 0, state, m, fuel, ObjectView::Null);
}

} // verus!
