use crate::ast::InfixOperator;
use crate::ast::PrefixOperator;
use crate::code::Op;
use crate::code::OpView;
use crate::code::Program;
use crate::code::spanned_view;
use crate::code::SpannedObject;
use crate::code::SpannedObjectView;
use crate::eval::apply_infix;
use crate::eval::array_element;
use crate::eval::ErrorKind;
use crate::eval::ErrorKindView;
use crate::eval::infix_result;
use crate::eval::map_element;
use crate::intrinsic::Intrinsic;
use crate::intrinsic::intrinsic_named;
use crate::intrinsic::intrinsic_output;
use crate::intrinsic::intrinsic_result;
use crate::intrinsic::lookup_intrinsic;
use crate::object::bind;
use crate::object::binding_of;
use crate::object::bindings_view;
use crate::object::clone_bindings;
use crate::object::CompiledFunction;
use crate::object::CompiledFunctionView;
use crate::object::find_binding;
use crate::object::insert_binding;
use crate::object::lemma_binding_index;
use crate::object::lemma_compiled_model;
use crate::object::lemma_object_model;
use crate::object::map_insert;
use crate::object::Object;
use crate::object::ObjectKind;
use crate::object::ObjectMap;
use crate::object::objects_view;
use crate::object::ObjectView;
use crate::object::share;
use crate::object::strings_view;
use crate::token::Span;
use crate::vm::frame::Frame;
use crate::vm::frame::FrameView;
use crate::vm::stack::Stack;
use crate::vm::stack::top_first;
use itertools::Itertools;
use std::rc::Rc;
use vstd::prelude::*;

pub mod frame;
pub mod stack;

verus! {

/// How many instructions a machine carries out in one run unless told otherwise.
pub const DEFAULT_STEP_LIMIT: u64 = 100_000_000;

/// What went wrong while the machine ran.
#[derive(Debug)]
pub enum Error {
    /// An instruction needed more values than the stack held.
    Underflow,
    /// The stack was full.
    Overflow,
    /// The run took more instructions than the machine's limit allows.
    StepLimit,
    /// An instruction named a constant that the program does not have.
    InvalidConstant(usize),
    /// An error of the program.
    Eval(crate::eval::Error),
}

/// The mathematical value of an [`Error`].
pub enum ErrorView {
    Underflow,
    Overflow,
    StepLimit,
    InvalidConstant(usize),
    Eval(crate::eval::ErrorView),
}

impl View for Error {
    type V = ErrorView;

    open spec fn view(&self) -> ErrorView {
        match self {
            Error::Underflow => ErrorView::Underflow,
            Error::Overflow => ErrorView::Overflow,
            Error::StepLimit => ErrorView::StepLimit,
            Error::InvalidConstant(i) => ErrorView::InvalidConstant(*i),
            Error::Eval(error) => ErrorView::Eval(error@),
        }
    }
}

/// A stack machine that runs compiled programs.
#[derive(Debug)]
pub struct VM {
    pub stack: Stack<SpannedObject>,
    pub frames: Vec<Frame>,
    pub constants: Vec<SpannedObject>,
    /// The lines that `print` has produced and that have not been taken yet.
    pub output: Vec<String>,
    /// How many instructions one run may carry out.
    pub step_limit: u64,
}

/// The mathematical value of a [`VM`]: its stack with the top value last,
/// the calls in progress with the innermost last, and the constants.
pub struct MachineView {
    pub stack: Seq<SpannedObjectView>,
    pub capacity: usize,
    pub frames: Seq<FrameView>,
    pub constants: Seq<SpannedObjectView>,
    pub output: Seq<Seq<char>>,
}

/// The values of a sequence of frames.
pub open spec fn frames_view(frames: Seq<Frame>) -> Seq<FrameView> {
    Seq::new(frames.len(), |i: int| frames[i]@)
}

impl View for VM {
    type V = MachineView;

    open spec fn view(&self) -> MachineView {
        MachineView {
            stack: spanned_view(self.stack.data@),
            capacity: self.stack.capacity,
            frames: frames_view(self.frames@),
            constants: spanned_view(self.constants@),
            output: strings_view(self.output@),
        }
    }
}

/// The machine that is about to run `program` for the first time: one call
/// in progress, that of the program, and nothing on the stack.
pub open spec fn started(program: crate::code::ProgramView, capacity: usize) -> MachineView {
    MachineView {
        stack: Seq::empty(),
        capacity,
        frames: seq![
            FrameView {
                function: CompiledFunctionView {
                    ops: program.ops,
                    params: Seq::empty(),
                    this: None,
                    captured: Seq::empty(),
                },
                ip: 0,
                call_span: Span { start: 0, end: 0 },
                locals: Seq::empty(),
            },
        ],
        constants: program.constants,
        output: Seq::empty(),
    }
}

/// The machine `m` made ready to run `program` from its start: the
/// outermost call keeps the names bound in it, and nothing else is left of
/// earlier runs but the lines printed.
pub open spec fn loaded(m: MachineView, program: crate::code::ProgramView) -> MachineView {
    MachineView {
        stack: Seq::empty(),
        capacity: m.capacity,
        frames: seq![
            FrameView {
                function: CompiledFunctionView {
                    ops: program.ops,
                    params: Seq::empty(),
                    this: None,
                    captured: Seq::empty(),
                },
                ip: 0,
                call_span: if m.frames.len() > 0 {
                    m.frames[0].call_span
                } else {
                    Span { start: 0, end: 0 }
                },
                locals: if m.frames.len() > 0 {
                    m.frames[0].locals
                } else {
                    Seq::empty()
                },
            },
        ],
        constants: program.constants,
        output: m.output,
    }
}

/// What one instruction makes of a machine.
pub enum Step {
    /// The machine goes on in this state.
    Next(MachineView),
    /// The run ends with this value and leaves the machine in this state.
    Done(ObjectView, MachineView),
    /// The run ends with this error and leaves the machine in this state.
    Fail(ErrorView, MachineView),
}

/// The objects of a sequence of spanned objects.
pub open spec fn objects_of(values: Seq<SpannedObjectView>) -> Seq<ObjectView> {
    Seq::new(values.len(), |i: int| values[i].object)
}

/// The address after `ip`.
pub open spec fn after(ip: usize) -> usize {
    if ip < usize::MAX {
        (ip + 1) as usize
    } else {
        ip
    }
}

impl MachineView {
    /// The machine with another stack.
    pub open spec fn with_stack(self, stack: Seq<SpannedObjectView>) -> MachineView {
        MachineView { stack, ..self }
    }

    /// The machine with the innermost call at the address `target`.
    pub open spec fn jump(self, target: usize) -> MachineView {
        MachineView {
            frames: self.frames.update(
                self.frames.len() - 1,
                FrameView { ip: target, ..self.frames.last() },
            ),
            ..self
        }
    }

    /// The machine with the innermost call at its next instruction.
    pub open spec fn advance(self) -> MachineView {
        self.jump(after(self.frames.last().ip))
    }

    /// The machine with other names bound in the innermost call.
    pub open spec fn with_locals(self, locals: Seq<(Seq<char>, ObjectView)>) -> MachineView {
        MachineView {
            frames: self.frames.update(
                self.frames.len() - 1,
                FrameView { locals, ..self.frames.last() },
            ),
            ..self
        }
    }

    /// Whether the machine has an instruction to carry out.
    pub open spec fn running(self) -> bool {
        self.frames.len() > 0 && self.frames.last().ip < self.frames.last().function.ops.len()
    }

    /// `value` pushed and the innermost call at its next instruction; the
    /// error `Overflow` where the stack is full.
    pub open spec fn push_next(self, value: SpannedObjectView) -> Step {
        if self.stack.len() >= self.capacity {
            Step::Fail(ErrorView::Overflow, self)
        } else {
            Step::Next(self.with_stack(self.stack.push(value)).advance())
        }
    }
}

/// An error of the program as the outcome of an instruction.
pub open spec fn program_error(span: Span, kind: ErrorKindView, m: MachineView) -> Step {
    Step::Fail(ErrorView::Eval(crate::eval::ErrorView { span, kind }), m)
}

/// How a run ends when there is no instruction left: with the value on top
/// of the stack, which it takes off, or with `null` where the stack is empty.
pub open spec fn halt(m: MachineView) -> Step {
    if m.stack.len() > 0 {
        Step::Done(m.stack.last().object, m.with_stack(m.stack.drop_last()))
    } else {
        Step::Done(ObjectView::Null, m)
    }
}

/// The value that `Constant` pushes: the constant, and where it is a
/// function, the closure of that function over the names bound in the call
/// in progress.
pub open spec fn closure_of(
    value: SpannedObjectView,
    locals: Seq<(Seq<char>, ObjectView)>,
) -> SpannedObjectView {
    match value.object {
        ObjectView::CompiledFunction(function) => SpannedObjectView {
            object: ObjectView::CompiledFunction(
                Box::new(
                    CompiledFunctionView {
                        ops: function.ops,
                        params: function.params,
                        this: function.this,
                        captured: locals,
                    },
                ),
            ),
            span: value.span,
        },
        _ => value,
    }
}

/// `Constant(index)`.
pub open spec fn constant_step(m: MachineView, index: usize) -> Step {
    if index >= m.constants.len() {
        Step::Fail(ErrorView::InvalidConstant(index), m)
    } else {
        m.push_next(closure_of(m.constants[index as int], m.frames.last().locals))
    }
}

/// What a binary instruction makes of two values. `GT` stands for `<` where
/// its left operand was written after its right one.
pub open spec fn machine_infix(
    operator: InfixOperator,
    left: SpannedObjectView,
    right: SpannedObjectView,
) -> Result<ObjectView, ErrorKindView> {
    if operator == InfixOperator::GT && left.span.start > right.span.end {
        match (left.object, right.object) {
            (ObjectView::Integer(x), ObjectView::Integer(y)) => Ok(ObjectView::Boolean(x > y)),
            _ => Err(
                ErrorKindView::InvalidOperands {
                    operator: InfixOperator::LT,
                    left: left.object.kind(),
                    right: right.object.kind(),
                },
            ),
        }
    } else {
        infix_result(operator, left.object, right.object)
    }
}

/// A binary instruction: it takes the right operand and then the left one
/// off the stack and pushes what the operator makes of them.
pub open spec fn binary_step(m: MachineView, operator: InfixOperator) -> Step {
    if m.stack.len() < 2 {
        Step::Fail(ErrorView::Underflow, m)
    } else {
        let right = m.stack[m.stack.len() - 1];
        let left = m.stack[m.stack.len() - 2];
        let span = left.span.spec_join(right.span);
        match machine_infix(operator, left, right) {
            Ok(value) => m.with_stack(m.stack.take(m.stack.len() - 2)).push_next(
                SpannedObjectView { object: value, span },
            ),
            Err(kind) => program_error(
                span,
                kind,
                m.with_stack(m.stack.take(m.stack.len() - 2)),
            ),
        }
    }
}

/// `Neg(span)` and `Not(span)`.
pub open spec fn unary_step(m: MachineView, operator: PrefixOperator, span: Span) -> Step {
    if m.stack.len() < 1 {
        Step::Fail(ErrorView::Underflow, m)
    } else {
        let operand = m.stack.last();
        match crate::eval::prefix_result(operator, operand.object) {
            Ok(value) => m.with_stack(m.stack.drop_last()).push_next(
                SpannedObjectView { object: value, span },
            ),
            Err(kind) => program_error(operand.span, kind, m.with_stack(m.stack.drop_last())),
        }
    }
}

/// `JumpIfNot(target)`.
pub open spec fn branch_step(m: MachineView, target: usize) -> Step {
    if m.stack.len() < 1 {
        Step::Fail(ErrorView::Underflow, m)
    } else {
        let rest = m.with_stack(m.stack.drop_last());
        if m.stack.last().object.truthy() {
            Step::Next(rest.advance())
        } else {
            Step::Next(rest.jump(target))
        }
    }
}

/// `Bind(name)`.
pub open spec fn bind_step(m: MachineView, name: Seq<char>) -> Step {
    if m.stack.len() < 1 {
        Step::Fail(ErrorView::Underflow, m)
    } else {
        Step::Next(
            m.with_stack(m.stack.drop_last()).with_locals(
                bind(m.frames.last().locals, name, m.stack.last().object),
            ).advance(),
        )
    }
}

/// `Get { name, span }`.
pub open spec fn get_step(m: MachineView, name: Seq<char>, span: Span) -> Step {
    match binding_of(m.frames.last().locals, name) {
        Some(value) => m.push_next(SpannedObjectView { object: value, span }),
        None => program_error(span, ErrorKindView::UndefinedVariable(name), m),
    }
}

/// `Array { size, span }`.
pub open spec fn array_step(m: MachineView, size: usize, span: Span) -> Step {
    if m.stack.len() < size {
        Step::Fail(ErrorView::Underflow, m)
    } else {
        m.with_stack(m.stack.take(m.stack.len() - size)).push_next(
            SpannedObjectView {
                object: ObjectView::Array(objects_of(top_first(m.stack, size as int))),
                span,
            },
        )
    }
}

/// The map of the pairs `items[from..]` of keys and values, added to `done`
/// in order; or the kind of the first key that cannot be one.
pub open spec fn hash_of(
    items: Seq<(ObjectView, ObjectView)>,
    from: int,
    done: Seq<(ObjectView, ObjectView)>,
) -> Result<Seq<(ObjectView, ObjectView)>, ObjectKind>
    decreases items.len() - from,
{
    if 0 <= from < items.len() {
        if !items[from].0.is_key() {
            Err(items[from].0.kind())
        } else {
            hash_of(items, from + 1, map_insert(done, items[from].0, items[from].1))
        }
    } else {
        Ok(done)
    }
}

/// The values of `items` in pairs: the first with the second, the third
/// with the fourth, and so on.
pub open spec fn paired(items: Seq<ObjectView>) -> Seq<(ObjectView, ObjectView)> {
    Seq::new(items.len() / 2, |i: int| (items[2 * i], items[2 * i + 1]))
}

/// `Hash { size, span }`. Two entries with one key are refused.
pub open spec fn hash_step(m: MachineView, size: usize, span: Span) -> Step {
    if m.stack.len() < 2 * size {
        Step::Fail(ErrorView::Underflow, m)
    } else {
        match hash_of(paired(objects_of(top_first(m.stack, 2 * size))), 0, Seq::empty()) {
            Err(kind) => program_error(
                span,
                ErrorKindView::InvalidKey(kind),
                m.with_stack(m.stack.take(m.stack.len() - 2 * size)),
            ),
            Ok(entries) => if entries.len() != size {
                Step::Fail(
                    ErrorView::Underflow,
                    m.with_stack(m.stack.take(m.stack.len() - 2 * size)),
                )
            } else {
                m.with_stack(m.stack.take(m.stack.len() - 2 * size)).push_next(
                    SpannedObjectView { object: ObjectView::Hash(entries), span },
                )
            },
        }
    }
}

/// The element of `collection` at `index`, or the error and its place.
pub open spec fn indexed(collection: SpannedObjectView, index: SpannedObjectView) -> Result<
    ObjectView,
    crate::eval::ErrorView,
> {
    match collection.object {
        ObjectView::Array(items) => match array_element(items, index.object) {
            Ok(value) => Ok(value),
            Err(kind) => Err(crate::eval::ErrorView { span: index.span, kind }),
        },
        ObjectView::Hash(entries) => match map_element(entries, index.object) {
            Ok(value) => Ok(value),
            Err(kind) => Err(crate::eval::ErrorView { span: index.span, kind }),
        },
        _ => Err(
            crate::eval::ErrorView { span: collection.span, kind: ErrorKindView::NotACollection },
        ),
    }
}

/// `Index(span)`.
pub open spec fn index_step(m: MachineView, span: Span) -> Step {
    if m.stack.len() < 2 {
        Step::Fail(ErrorView::Underflow, m)
    } else {
        let index = m.stack[m.stack.len() - 1];
        let collection = m.stack[m.stack.len() - 2];
        match indexed(collection, index) {
            Ok(value) => m.with_stack(m.stack.take(m.stack.len() - 2)).push_next(
                SpannedObjectView { object: value, span },
            ),
            Err(error) => Step::Fail(
                ErrorView::Eval(error),
                m.with_stack(m.stack.take(m.stack.len() - 2)),
            ),
        }
    }
}

/// The bindings after the parameters have been bound to the arguments
/// `args[from..]`, which come last argument first: the last parameter to
/// the first of them, and so on.
pub open spec fn bind_arguments(
    values: Seq<(Seq<char>, ObjectView)>,
    params: Seq<Seq<char>>,
    args: Seq<ObjectView>,
    from: int,
) -> Seq<(Seq<char>, ObjectView)>
    decreases args.len() - from,
{
    if 0 <= from < args.len() && from < params.len() {
        bind_arguments(
            bind(values, params[params.len() - 1 - from], args[from]),
            params,
            args,
            from + 1,
        )
    } else {
        values
    }
}

/// The names bound at the start of a call: those that the function
/// captured, its parameters, and its own name if it has one.
pub open spec fn call_locals(function: CompiledFunctionView, args: Seq<ObjectView>) -> Seq<
    (Seq<char>, ObjectView),
> {
    let bound = bind_arguments(function.captured, function.params, args, 0);
    match function.this {
        Some(name) => bind(bound, name, ObjectView::CompiledFunction(Box::new(function))),
        None => bound,
    }
}

/// The built-in function that a function value stands for: one without
/// instructions that has the name of a built-in function does.
pub open spec fn called_intrinsic(function: CompiledFunctionView) -> Option<Intrinsic> {
    if function.ops.len() == 0 {
        match function.this {
            Some(name) => intrinsic_named(name),
            None => None,
        }
    } else {
        None
    }
}

/// `values` from the last to the first.
pub open spec fn in_order(values: Seq<ObjectView>) -> Seq<ObjectView> {
    Seq::new(values.len(), |i: int| values[values.len() - 1 - i])
}

/// `Call { call_span, args_span }`. The call of a function starts a new
/// call in progress; that of a built-in function is carried out at once.
pub open spec fn call_step(m: MachineView, call_span: Span, args_span: Span) -> Step {
    if m.stack.len() < 1 {
        Step::Fail(ErrorView::Underflow, m)
    } else {
        let callee = m.stack.last();
        let rest = m.stack.drop_last();
        match callee.object {
            ObjectView::CompiledFunction(function) => {
                let n = function.params.len();
                if rest.len() < n {
                    program_error(
                        args_span,
                        ErrorKindView::WrongNumberOfArguments {
                            expected: n as usize,
                            got: rest.len() as usize,
                        },
                        m.with_stack(rest),
                    )
                } else {
                    let below = m.with_stack(rest.take(rest.len() - n));
                    let given = objects_of(top_first(rest, n as int));
                    match called_intrinsic(*function) {
                        Some(which) => match intrinsic_result(which, in_order(given), args_span) {
                            Ok(value) => (MachineView {
                                output: m.output + intrinsic_output(which, in_order(given)),
                                ..below
                            }).push_next(SpannedObjectView { object: value, span: call_span }),
                            Err(error) => Step::Fail(ErrorView::Eval(error), below),
                        },
                        None => Step::Next(
                            MachineView {
                                frames: m.frames.push(
                                    FrameView {
                                        function: *function,
                                        ip: 0,
                                        call_span,
                                        locals: call_locals(*function, given),
                                    },
                                ),
                                ..below
                            },
                        ),
                    }
                }
            },
            _ => program_error(callee.span, ErrorKindView::NotAFunction, m.with_stack(rest)),
        }
    }
}

/// The end of a call with `value`, with `stack` left on the stack: the
/// value goes to the caller, which goes on after the call. Where no caller
/// is left, the run ends with the value.
pub open spec fn returned(m: MachineView, value: ObjectView, stack: Seq<SpannedObjectView>) -> Step {
    if m.frames.len() <= 1 {
        Step::Done(value, m.with_stack(stack))
    } else if stack.len() >= m.capacity {
        Step::Fail(ErrorView::Overflow, m.with_stack(stack))
    } else {
        Step::Next(
            MachineView {
                stack: stack.push(
                    SpannedObjectView { object: value, span: m.frames.last().call_span },
                ),
                frames: m.frames.drop_last(),
                ..m
            }.advance(),
        )
    }
}

/// `ReturnValue`.
pub open spec fn return_value_step(m: MachineView) -> Step {
    if m.stack.len() < 1 {
        Step::Fail(ErrorView::Underflow, m)
    } else {
        returned(m, m.stack.last().object, m.stack.drop_last())
    }
}

/// What the next instruction makes of the machine.
pub open spec fn step(m: MachineView) -> Step {
    if !m.running() {
        halt(m)
    } else {
        let frame = m.frames.last();
        match frame.function.ops[frame.ip as int] {
            OpView::Constant(index) => constant_step(m, index),
            OpView::True(span) => m.push_next(
                SpannedObjectView { object: ObjectView::Boolean(true), span },
            ),
            OpView::False(span) => m.push_next(
                SpannedObjectView { object: ObjectView::Boolean(false), span },
            ),
            OpView::Null(span) => m.push_next(SpannedObjectView { object: ObjectView::Null, span }),
            OpView::Add => binary_step(m, InfixOperator::Add),
            OpView::Sub => binary_step(m, InfixOperator::Sub),
            OpView::Mul => binary_step(m, InfixOperator::Mul),
            OpView::Div => binary_step(m, InfixOperator::Div),
            OpView::Eq => binary_step(m, InfixOperator::Eq),
            OpView::Neq => binary_step(m, InfixOperator::Neq),
            OpView::GT => binary_step(m, InfixOperator::GT),
            OpView::Neg(span) => unary_step(m, PrefixOperator::Neg, span),
            OpView::Not(span) => unary_step(m, PrefixOperator::Not, span),
            OpView::Pop => Step::Next(
                m.with_stack(
                    if m.stack.len() > 0 {
                        m.stack.drop_last()
                    } else {
                        m.stack
                    },
                ).advance(),
            ),
            OpView::JumpIfNot(target) => branch_step(m, target),
            OpView::Jump(target) => Step::Next(m.jump(target)),
            OpView::Bind(name) => bind_step(m, name),
            OpView::Get { name, span } => get_step(m, name, span),
            OpView::Array { size, span } => array_step(m, size, span),
            OpView::Hash { size, span } => hash_step(m, size, span),
            OpView::Index(span) => index_step(m, span),
            OpView::Call { call_span, args_span } => call_step(m, call_span, args_span),
            OpView::ReturnValue => return_value_step(m),
            OpView::Return => returned(m, ObjectView::Null, m.stack),
        }
    }
}

/// How a run ends.
pub struct Ran {
    pub result: Result<ObjectView, ErrorView>,
    /// The machine after the run.
    pub machine: MachineView,
}

/// The run of the machine from the state `m` with `fuel` instructions
/// allowed: it carries out instruction after instruction until one ends
/// the run; when the allowance is used up it ends with `StepLimit`.
pub open spec fn run_from(m: MachineView, fuel: nat) -> Ran
    decreases fuel,
{
    if fuel == 0 {
        Ran { result: Err(ErrorView::StepLimit), machine: m }
    } else {
        match step(m) {
            Step::Next(next) => run_from(next, (fuel - 1) as nat),
            Step::Done(value, last) => Ran { result: Ok(value), machine: last },
            Step::Fail(error, last) => Ran { result: Err(error), machine: last },
        }
    }
}

/// What the machine hands back after an instruction.
pub enum Stepped {
    Next,
    Done(Object),
    Fail(Error),
}

/// Whether the machine did what the instruction asks for.
pub open spec fn agrees(outcome: Stepped, now: MachineView, wanted: Step) -> bool {
    match wanted {
        Step::Next(next) => outcome is Next && now == next,
        Step::Done(value, last) => outcome matches Stepped::Done(object) && object@ == value && now
            == last,
        Step::Fail(error, last) => outcome matches Stepped::Fail(found) && found@ == error && now
            == last,
    }
}

/// `Itertools::tuples` with pairs, collected: the items two by two in order,
/// the first of each two as the key. An item left over at the end is dropped.
#[verifier::external_body]
fn pair_up(items: Vec<Object>) -> (pairs: Vec<(Object, Object)>)
    ensures
        pairs@.len() == items@.len() / 2,
        forall|i: int|
            0 <= i < pairs@.len() ==> #[trigger] pairs@[i] == (items@[2 * i], items@[2 * i + 1]),
{
    items.into_iter().tuples::<(_, _)>().collect()
}

/// `values` from the last to the first.
fn reversed(values: Vec<Object>) -> (turned: Vec<Object>)
    ensures
        objects_view(turned@) == in_order(objects_view(values@)),
{
    let ghost given = objects_view(values@);
    let mut values = values;
    let mut turned: Vec<Object> = Vec::new();
    while values.len() > 0
        invariant
            values@.len() + turned@.len() == given.len(),
            forall|j: int| 0 <= j < values@.len() ==> values@[j]@ == given[j],
            forall|j: int| 0 <= j < turned@.len() ==> turned@[j]@ == given[given.len() - 1 - j],
        decreases values.len(),
    {
        match values.pop() {
            Some(value) => {
                turned.push(value);
            },
            None => {},
        }
    }
    assert(objects_view(turned@) =~= in_order(given));
    turned
}

/// The outcome of an instruction that fails with an error of the program.
fn program_failure(span: Span, kind: ErrorKind) -> (outcome: Stepped)
    ensures
        outcome matches Stepped::Fail(found) && found@ == ErrorView::Eval(
            crate::eval::ErrorView { span, kind: kind@ },
        ),
{
    Stepped::Fail(Error::Eval(crate::eval::Error { span, kind }))
}

impl VM {
    /// A machine that is about to run `program`.
    pub fn new(program: Program) -> (vm: VM)
        ensures
            vm@ == started(program@, crate::vm::stack::DEFAULT_CAPACITY),
            vm.step_limit == DEFAULT_STEP_LIMIT,
    {
        let function = CompiledFunction {
            ops: Rc::new(program.ops),
            params: Rc::new(Vec::new()),
            this: None,
            captured: Vec::new(),
        };
        proof {
            lemma_compiled_model(function);
            assert(function.model().params =~= Seq::empty());
            assert(function.model().captured =~= Seq::empty());
        }
        let mut frames: Vec<Frame> = Vec::new();
        frames.push(Frame::new(Rc::new(function), Span { start: 0, end: 0 }));
        let vm = VM {
            stack: Stack::default(),
            frames,
            constants: program.constants,
            output: Vec::new(),
            step_limit: DEFAULT_STEP_LIMIT,
        };
        proof {
            let wanted = started(program@, crate::vm::stack::DEFAULT_CAPACITY);
            assert(vm@.stack =~= wanted.stack);
            assert(vm@.output =~= wanted.output);
            assert(vm@.frames =~= wanted.frames);
        }
        vm
    }

    /// Makes the machine ready to run `program` from its start: in its
    /// outermost call, which keeps the names bound in it, with an empty
    /// stack and no other call in progress.
    pub fn load(&mut self, program: Program)
        ensures
            final(self)@ == loaded(old(self)@, program@),
            final(self).step_limit == old(self).step_limit,
    {
        let function = CompiledFunction {
            ops: Rc::new(program.ops),
            params: Rc::new(Vec::new()),
            this: None,
            captured: Vec::new(),
        };
        proof {
            lemma_compiled_model(function);
            assert(function.model().params =~= Seq::empty());
            assert(function.model().captured =~= Seq::empty());
        }
        let mut locals: Vec<(String, Object)> = Vec::new();
        let mut call_span = Span { start: 0, end: 0 };
        assert(bindings_view(locals@) =~= Seq::empty());
        if self.frames.len() > 0 {
            let root = &mut self.frames[0];
            call_span = root.call_span;
            std::mem::swap(&mut locals, &mut root.locals);
        }
        self.frames.clear();
        self.frames.push(Frame { function: Rc::new(function), ip: 0, call_span, locals });
        self.stack.data.clear();
        self.constants = program.constants;
        proof {
            let wanted = loaded(old(self)@, program@);
            assert(self@.frames =~= wanted.frames);
            assert(self@.stack =~= wanted.stack);
        }
    }

    /// The call in progress.
    fn current_frame(&self) -> (frame: &Frame)
        requires
            self.frames.len() > 0,
        ensures
            *frame == self.frames@.last(),
            frame@ == self@.frames.last(),
    {
        &self.frames[self.frames.len() - 1]
    }

    /// The call in progress, to be changed.
    fn current_frame_mut(&mut self) -> (frame: &mut Frame)
        requires
            old(self).frames.len() > 0,
        ensures
            *frame == old(self).frames@.last(),
            final(self).frames@ == old(self).frames@.update(
                old(self).frames@.len() - 1,
                *final(frame),
            ),
            final(self).stack == old(self).stack,
            final(self).constants == old(self).constants,
            final(self).output == old(self).output,
            final(self).step_limit == old(self).step_limit,
    {
        let n: usize = self.frames.len();
        &mut self.frames[n - 1]
    }

    /// Sets the address of the call in progress.
    fn jump(&mut self, target: usize)
        requires
            old(self).frames.len() > 0,
        ensures
            final(self)@ == old(self)@.jump(target),
            final(self).step_limit == old(self).step_limit,
    {
        let frame = self.current_frame_mut();
        frame.ip = target;
        proof {
            assert(self@.frames =~= old(self)@.jump(target).frames);
        }
    }

    /// Moves the call in progress to its next instruction.
    fn advance(&mut self)
        requires
            old(self).frames.len() > 0,
        ensures
            final(self)@ == old(self)@.advance(),
            final(self).step_limit == old(self).step_limit,
    {
        let ip: usize = self.current_frame().ip;
        let next: usize = if ip < usize::MAX {
            ip + 1
        } else {
            ip
        };
        self.jump(next);
    }

    /// Binds `name` to `value` in the call in progress.
    fn bind(&mut self, name: String, value: Object)
        requires
            old(self).frames.len() > 0,
        ensures
            final(self)@ == old(self)@.with_locals(
                bind(old(self)@.frames.last().locals, name@, value@),
            ),
            final(self).step_limit == old(self).step_limit,
    {
        let frame = self.current_frame_mut();
        insert_binding(&mut frame.locals, name, value);
        proof {
            assert(self@.frames =~= old(self)@.with_locals(
                bind(old(self)@.frames.last().locals, name@, value@),
            ).frames);
        }
    }

    /// Takes the top value off the stack.
    fn pop(&mut self) -> (value: Option<SpannedObject>)
        ensures
            final(self).step_limit == old(self).step_limit,
            old(self)@.stack.len() > 0 ==> value is Some && value->0@ == old(self)@.stack.last()
                && final(self)@ == old(self)@.with_stack(old(self)@.stack.drop_last()),
            old(self)@.stack.len() == 0 ==> value is None && final(self)@ == old(self)@,
    {
        let value = self.stack.pop();
        proof {
            if old(self)@.stack.len() > 0 {
                assert(self@.stack =~= old(self)@.stack.drop_last());
            }
        }
        value
    }

    /// Takes the `count` top values off the stack, the top one first.
    fn take(&mut self, count: usize) -> (objects: Vec<Object>)
        requires
            count <= old(self)@.stack.len(),
        ensures
            final(self).step_limit == old(self).step_limit,
            final(self)@ == old(self)@.with_stack(
                old(self)@.stack.take(old(self)@.stack.len() - count),
            ),
            objects_view(objects@) == objects_of(top_first(old(self)@.stack, count as int)),
    {
        let mut values = self.stack.drain(count);
        proof {
            assert(self@.stack =~= old(self)@.stack.take(old(self)@.stack.len() - count));
        }
        let ghost drained = values@;
        let mut objects: Vec<Object> = Vec::new();
        let mut i: usize = 0;
        while i < values.len()
            invariant
                i <= values.len(),
                values@.len() == drained.len(),
                objects@.len() == i,
                forall|j: int| 0 <= j < i ==> objects@[j]@ == drained[j]@.object,
                forall|j: int| i <= j < values.len() ==> values@[j] == drained[j],
            decreases values.len() - i,
        {
            let mut slot = SpannedObject { object: Object::Null, span: Span { start: 0, end: 0 } };
            std::mem::swap(&mut slot, &mut values[i]);
            objects.push(slot.object);
            i += 1;
        }
        proof {
            assert(objects_view(objects@) =~= objects_of(
                top_first(old(self)@.stack, count as int),
            ));
        }
        objects
    }

    /// Pushes `value` and moves on to the next instruction.
    fn push_next(&mut self, value: SpannedObject) -> (outcome: Stepped)
        requires
            old(self).frames.len() > 0,
        ensures
            agrees(outcome, final(self)@, old(self)@.push_next(value@)),
            final(self).step_limit == old(self).step_limit,
    {
        match self.stack.push(value) {
            Ok(_) => {
                proof {
                    assert(self@.stack =~= old(self)@.stack.push(value@));
                }
                self.advance();
                Stepped::Next
            },
            Err(_) => Stepped::Fail(Error::Overflow),
        }
    }

    /// Carries out `Constant(index)`.
    fn execute_constant(&mut self, index: usize) -> (outcome: Stepped)
        requires
            old(self).frames.len() > 0,
        ensures
            agrees(outcome, final(self)@, constant_step(old(self)@, index)),
            final(self).step_limit == old(self).step_limit,
    {
        if index >= self.constants.len() {
            return Stepped::Fail(Error::InvalidConstant(index));
        }
        let value = match &self.constants[index].object {
            Object::CompiledFunction(function) => {
                let closure = CompiledFunction {
                    ops: share(&function.ops),
                    params: share(&function.params),
                    this: function.this.clone(),
                    captured: clone_bindings(&self.current_frame().locals),
                };
                proof {
                    lemma_compiled_model(closure);
                    let made = closure.model();
                    let given = function@;
                    assert(made.ops == given.ops);
                    assert(made.params == given.params);
                    assert(made.this == given.this);
                    assert(self.constants@[index as int]@.object == ObjectView::CompiledFunction(
                        Box::new(given),
                    ));
                }
                SpannedObject {
                    object: Object::CompiledFunction(Rc::new(closure)),
                    span: self.constants[index].span,
                }
            },
            _ => self.constants[index].clone(),
        };
        self.push_next(value)
    }

    /// Carries out a binary instruction.
    fn execute_binary_op(&mut self, operator: InfixOperator) -> (outcome: Stepped)
        requires
            old(self).frames.len() > 0,
        ensures
            agrees(outcome, final(self)@, binary_step(old(self)@, operator)),
            final(self).step_limit == old(self).step_limit,
    {
        if self.stack.len() < 2 {
            return Stepped::Fail(Error::Underflow);
        }
        let right = self.pop().unwrap();
        let left = self.pop().unwrap();
        let span = left.span.join(right.span);
        let swapped = left.span.start > right.span.end;
        let result = match operator {
            InfixOperator::GT => {
                if swapped {
                    invalid_operands(InfixOperator::LT, left.object, right.object)
                } else {
                    apply_infix(operator, left.object, right.object)
                }
            },
            _ => apply_infix(operator, left.object, right.object),
        };
        proof {
            assert(self@.stack =~= old(self)@.stack.take(old(self)@.stack.len() - 2));
            assert(self@ == old(self)@.with_stack(
                old(self)@.stack.take(old(self)@.stack.len() - 2),
            ));
        }
        match result {
            Ok(value) => self.push_next(SpannedObject { object: value, span }),
            Err(kind) => program_failure(span, kind),
        }
    }

    /// Carries out `Neg(span)` or `Not(span)`.
    fn execute_unary_op(&mut self, operator: PrefixOperator, span: Span) -> (outcome: Stepped)
        requires
            old(self).frames.len() > 0,
        ensures
            agrees(outcome, final(self)@, unary_step(old(self)@, operator, span)),
            final(self).step_limit == old(self).step_limit,
    {
        let operand = match self.pop() {
            Some(value) => value,
            None => {
                return Stepped::Fail(Error::Underflow);
            },
        };
        proof {
            assert(self@ == old(self)@.with_stack(old(self)@.stack.drop_last()));
        }
        match crate::eval::apply_prefix(operator, operand.object) {
            Ok(value) => self.push_next(SpannedObject { object: value, span }),
            Err(kind) => program_failure(operand.span, kind),
        }
    }

    /// Carries out `JumpIfNot(target)`.
    fn execute_branch(&mut self, target: usize) -> (outcome: Stepped)
        requires
            old(self).frames.len() > 0,
        ensures
            agrees(outcome, final(self)@, branch_step(old(self)@, target)),
            final(self).step_limit == old(self).step_limit,
    {
        let value = match self.pop() {
            Some(value) => value,
            None => {
                return Stepped::Fail(Error::Underflow);
            },
        };
        if value.object.truthy() {
            self.advance();
        } else {
            self.jump(target);
        }
        Stepped::Next
    }

    /// Carries out `Bind(name)`.
    fn execute_bind(&mut self, name: String) -> (outcome: Stepped)
        requires
            old(self).frames.len() > 0,
        ensures
            agrees(outcome, final(self)@, bind_step(old(self)@, name@)),
            final(self).step_limit == old(self).step_limit,
    {
        let value = match self.pop() {
            Some(value) => value,
            None => {
                return Stepped::Fail(Error::Underflow);
            },
        };
        self.bind(name, value.object);
        self.advance();
        Stepped::Next
    }

    /// Carries out `Get { name, span }`.
    fn execute_get(&mut self, name: String, span: Span) -> (outcome: Stepped)
        requires
            old(self).frames.len() > 0,
        ensures
            agrees(outcome, final(self)@, get_step(old(self)@, name@, span)),
            final(self).step_limit == old(self).step_limit,
    {
        let frame = self.current_frame();
        proof {
            lemma_binding_index(bindings_view(frame.locals@), name@);
        }
        let at = find_binding(&frame.locals, &name);
        if at < frame.locals.len() {
            let object = frame.locals[at].1.clone();
            self.push_next(SpannedObject { object, span })
        } else {
            program_failure(span, ErrorKind::UndefinedVariable(name))
        }
    }

    /// Carries out `Array { size, span }`.
    fn execute_array(&mut self, size: usize, span: Span) -> (outcome: Stepped)
        requires
            old(self).frames.len() > 0,
        ensures
            agrees(outcome, final(self)@, array_step(old(self)@, size, span)),
            final(self).step_limit == old(self).step_limit,
    {
        if self.stack.len() < size {
            return Stepped::Fail(Error::Underflow);
        }
        let items = self.take(size);
        let object = Object::Array(items);
        proof {
            lemma_object_model(object);
        }
        self.push_next(SpannedObject { object, span })
    }

    /// Carries out `Hash { size, span }`.
    fn execute_hash(&mut self, size: usize, span: Span) -> (outcome: Stepped)
        requires
            old(self).frames.len() > 0,
        ensures
            agrees(outcome, final(self)@, hash_step(old(self)@, size, span)),
            final(self).step_limit == old(self).step_limit,
    {
        let have: usize = self.stack.len();
        if size > usize::MAX / 2 || have < 2 * size {
            return Stepped::Fail(Error::Underflow);
        }
        let items = self.take(2 * size);
        let ghost shown = objects_view(items@);
        let pairs = pair_up(items);
        let ghost all = paired(shown);
        proof {
            assert(crate::object::pairs_view(pairs@) =~= all);
        }
        let mut map = ObjectMap::new();
        let mut i: usize = 0;
        proof {
            assert(map@ =~= Seq::empty());
        }
        while i < pairs.len()
            invariant
                i <= pairs.len(),
                all == crate::object::pairs_view(pairs@),
                hash_of(all, 0, Seq::empty()) == hash_of(all, i as int, map@),
                self.frames.len() > 0,
                self.step_limit == old(self).step_limit,
                old(self)@.stack.len() >= 2 * size,
                all == paired(objects_of(top_first(old(self)@.stack, 2 * size))),
                self@ == old(self)@.with_stack(
                    old(self)@.stack.take(old(self)@.stack.len() - 2 * size),
                ),
            decreases pairs.len() - i,
        {
            if !pairs[i].0.is_key() {
                return program_failure(span, ErrorKind::InvalidKey(pairs[i].0.kind()));
            }
            map.insert(pairs[i].0.clone(), pairs[i].1.clone());
            i += 1;
        }
        if map.len() != size {
            return Stepped::Fail(Error::Underflow);
        }
        let object = Object::Hash(map);
        proof {
            lemma_object_model(object);
        }
        self.push_next(SpannedObject { object, span })
    }

    /// Carries out `Index(span)`.
    fn execute_index(&mut self, span: Span) -> (outcome: Stepped)
        requires
            old(self).frames.len() > 0,
        ensures
            agrees(outcome, final(self)@, index_step(old(self)@, span)),
            final(self).step_limit == old(self).step_limit,
    {
        if self.stack.len() < 2 {
            return Stepped::Fail(Error::Underflow);
        }
        let index = self.pop().unwrap();
        let collection = self.pop().unwrap();
        proof {
            lemma_object_model(collection.object);
            assert(self@.stack =~= old(self)@.stack.take(old(self)@.stack.len() - 2));
        }
        let value = match &collection.object {
            Object::Array(items) => match &index.object {
                Object::Integer(i) => {
                    if *i < 0 || *i as u64 >= items.len() as u64 {
                        return program_failure(
                            index.span,
                            ErrorKind::OutOfBounds { i: *i, len: items.len() },
                        );
                    }
                    items[*i as usize].clone()
                },
                _ => {
                    return program_failure(index.span, ErrorKind::NotAnIndex);
                },
            },
            Object::Hash(map) => {
                if !index.object.is_key() {
                    return program_failure(index.span, ErrorKind::InvalidKey(index.object.kind()));
                }
                match map.get(&index.object) {
                    Some(value) => value.clone(),
                    None => Object::Null,
                }
            },
            _ => {
                return program_failure(collection.span, ErrorKind::NotACollection);
            },
        };
        proof {
            assert(self@.stack =~= old(self)@.stack.take(old(self)@.stack.len() - 2));
        }
        self.push_next(SpannedObject { object: value, span })
    }

    /// Carries out `Call { call_span, args_span }`.
    fn execute_call(&mut self, call_span: Span, args_span: Span) -> (outcome: Stepped)
        requires
            old(self).frames.len() > 0,
        ensures
            agrees(outcome, final(self)@, call_step(old(self)@, call_span, args_span)),
            final(self).step_limit == old(self).step_limit,
    {
        let callee = match self.pop() {
            Some(value) => value,
            None => {
                return Stepped::Fail(Error::Underflow);
            },
        };
        let function = match callee.object {
            Object::CompiledFunction(function) => function,
            _ => {
                return program_failure(callee.span, ErrorKind::NotAFunction);
            },
        };
        let ghost shown = function@;
        let called: &CompiledFunction = &function;
        proof {
            lemma_compiled_model(*called);
        }
        let n: usize = function.params.len();
        if self.stack.len() < n {
            return program_failure(
                args_span,
                ErrorKind::WrongNumberOfArguments { expected: n, got: self.stack.len() },
            );
        }
        let builtin = if function.ops.len() == 0 {
            match &function.this {
                Some(name) => lookup_intrinsic(name.as_str()),
                None => None,
            }
        } else {
            None
        };
        let ghost rest = self@.stack;
        let args = self.take(n);
        let ghost given = objects_view(args@);
        match builtin {
            Some(which) => {
                let ordered = reversed(args);
                let ghost before = strings_view(self.output@);
                match which.call(&ordered, args_span, &mut self.output) {
                    Ok(value) => self.push_next(SpannedObject { object: value, span: call_span }),
                    Err(error) => {
                        proof {
                            assert(before + Seq::<Seq<char>>::empty() =~= before);
                        }
                        Stepped::Fail(Error::Eval(error))
                    },
                }
            },
            None => {
                let mut locals = clone_bindings(&function.captured);
                let mut i: usize = 0;
                while i < args.len() && i < n
                    invariant
                        i <= args.len(),
                        n == function.params.len(),
                        shown == function@,
                        shown.params == strings_view((*function.params)@),
                        given == objects_view(args@),
                        bind_arguments(shown.captured, shown.params, given, 0) == bind_arguments(
                            bindings_view(locals@),
                            shown.params,
                            given,
                            i as int,
                        ),
                    decreases args.len() - i,
                {
                    insert_binding(
                        &mut locals,
                        function.params[n - 1 - i].clone(),
                        args[i].clone(),
                    );
                    i += 1;
                }
                match &function.this {
                    Some(name) => {
                        insert_binding(
                            &mut locals,
                            name.clone(),
                            Object::CompiledFunction(share(&function)),
                        );
                    },
                    None => {},
                }
                let frame = Frame { function, ip: 0, call_span, locals };
                self.frames.push(frame);
                proof {
                    assert(self@.frames =~= old(self)@.frames.push(
                        FrameView {
                            function: shown,
                            ip: 0,
                            call_span,
                            locals: call_locals(shown, objects_of(top_first(rest, n as int))),
                        },
                    ));
                }
                Stepped::Next
            },
        }
    }

    /// Ends the call in progress with `value`.
    fn execute_return(&mut self, value: Object, Ghost(before): Ghost<MachineView>) -> (outcome:
        Stepped)
        requires
            old(self).frames.len() > 0,
            before.frames == old(self)@.frames,
            before.capacity == old(self)@.capacity,
            before.constants == old(self)@.constants,
            before.output == old(self)@.output,
        ensures
            agrees(outcome, final(self)@, returned(before, value@, old(self)@.stack)),
            final(self).step_limit == old(self).step_limit,
    {
        if self.frames.len() <= 1 {
            return Stepped::Done(value);
        }
        if self.stack.len() >= self.stack.capacity {
            return Stepped::Fail(Error::Overflow);
        }
        let frame = self.frames.pop().unwrap();
        proof {
            assert(self@.frames =~= before.frames.drop_last());
        }
        let pushed = self.stack.push(SpannedObject { object: value, span: frame.call_span });
        proof {
            assert(self@.stack =~= old(self)@.stack.push(
                SpannedObjectView { object: value@, span: frame.call_span },
            ));
        }
        self.advance();
        Stepped::Next
    }

    /// Carries out the next instruction.
    pub fn step(&mut self) -> (outcome: Stepped)
        ensures
            agrees(outcome, final(self)@, step(old(self)@)),
            final(self).step_limit == old(self).step_limit,
    {
        if self.frames.len() == 0 {
            return self.halt();
        }
        let frame = self.current_frame();
        let ip: usize = frame.ip;
        if ip >= frame.ops().len() {
            return self.halt();
        }
        let op = frame.ops()[ip].clone();
        assert(op@ == self@.frames.last().function.ops[ip as int]);
        match op {
            Op::Constant(index) => self.execute_constant(index),
            Op::True(span) => self.push_next(SpannedObject { object: Object::Boolean(true), span }),
            Op::False(span) => self.push_next(
                SpannedObject { object: Object::Boolean(false), span },
            ),
            Op::Null(span) => self.push_next(SpannedObject { object: Object::Null, span }),
            Op::Add => self.execute_binary_op(InfixOperator::Add),
            Op::Sub => self.execute_binary_op(InfixOperator::Sub),
            Op::Mul => self.execute_binary_op(InfixOperator::Mul),
            Op::Div => self.execute_binary_op(InfixOperator::Div),
            Op::Eq => self.execute_binary_op(InfixOperator::Eq),
            Op::Neq => self.execute_binary_op(InfixOperator::Neq),
            Op::GT => self.execute_binary_op(InfixOperator::GT),
            Op::Neg(span) => self.execute_unary_op(PrefixOperator::Neg, span),
            Op::Not(span) => self.execute_unary_op(PrefixOperator::Not, span),
            Op::Pop => {
                let _ = self.pop();
                self.advance();
                Stepped::Next
            },
            Op::JumpIfNot(target) => self.execute_branch(target),
            Op::Jump(target) => {
                self.jump(target);
                Stepped::Next
            },
            Op::Bind(name) => self.execute_bind(name),
            Op::Get { name, span } => self.execute_get(name, span),
            Op::Array { size, span } => self.execute_array(size, span),
            Op::Hash { size, span } => self.execute_hash(size, span),
            Op::Index(span) => self.execute_index(span),
            Op::Call { call_span, args_span } => self.execute_call(call_span, args_span),
            Op::ReturnValue => {
                let ghost before = self@;
                match self.pop() {
                    Some(value) => self.execute_return(value.object, Ghost(before)),
                    None => Stepped::Fail(Error::Underflow),
                }
            },
            Op::Return => {
                let ghost before = self@;
                self.execute_return(Object::Null, Ghost(before))
            },
        }
    }

    /// Ends the run where no instruction is left.
    fn halt(&mut self) -> (outcome: Stepped)
        ensures
            agrees(outcome, final(self)@, halt(old(self)@)),
            final(self).step_limit == old(self).step_limit,
    {
        match self.pop() {
            Some(value) => Stepped::Done(value.object),
            None => Stepped::Done(Object::Null),
        }
    }

    /// Runs the machine until an instruction ends the run.
    ///
    /// The run ends with a value when the instructions of a call are used up
    /// or the outermost call returns: with the value on top of the stack, or
    /// `null`. It ends with an error when an instruction fails, and with
    /// `StepLimit` after `step_limit` instructions.
    pub fn run(&mut self) -> (result: Result<Object, Vec<Error>>)
        ensures
            ({
                let ran = run_from(old(self)@, old(self).step_limit as nat);
                match ran.result {
                    Ok(value) => result matches Ok(object) && object@ == value && final(self)@
                        == ran.machine,
                    Err(error) => result matches Err(errors) && errors@.len() == 1 && errors@[0]@
                        == error && final(self)@ == ran.machine,
                }
            }),
            final(self).step_limit == old(self).step_limit,
    {
        let mut fuel: u64 = self.step_limit;
        loop
            invariant
                self.step_limit == old(self).step_limit,
                run_from(old(self)@, old(self).step_limit as nat) == run_from(self@, fuel as nat),
            decreases fuel,
        {
            if fuel == 0 {
                let mut errors: Vec<Error> = Vec::new();
                errors.push(Error::StepLimit);
                return Err(errors);
            }
            match self.step() {
                Stepped::Next => {
                    fuel = fuel - 1;
                },
                Stepped::Done(value) => {
                    return Ok(value);
                },
                Stepped::Fail(error) => {
                    let mut errors: Vec<Error> = Vec::new();
                    errors.push(error);
                    return Err(errors);
                },
            }
        }
    }
}

/// The outcome of a comparison that the compiler wrote with its operands
/// exchanged: that of `>`, and where the operands are not integers, the
/// error names `operator`.
fn invalid_operands(operator: InfixOperator, left: Object, right: Object) -> (outcome: Result<
    Object,
    ErrorKind,
>)
    ensures
        crate::eval::applied_view(outcome) == match (left@, right@) {
            (ObjectView::Integer(x), ObjectView::Integer(y)) => Ok::<ObjectView, ErrorKindView>(
                ObjectView::Boolean(x > y),
            ),
            _ => Err::<ObjectView, ErrorKindView>(
                ErrorKindView::InvalidOperands {
                    operator,
                    left: left@.kind(),
                    right: right@.kind(),
                },
            ),
        },
{
    match (&left, &right) {
        (Object::Integer(x), Object::Integer(y)) => Ok(Object::Boolean(*x > *y)),
        _ => Err(ErrorKind::InvalidOperands { operator, left: left.kind(), right: right.kind() }),
    }
}

impl Default for VM {
    fn default() -> (vm: Self)
        ensures
            vm@.stack.len() == 0,
            vm@.frames.len() == 1,
            vm@.constants.len() == 0,
    {
        VM::new(Program::default())
    }
}

} // verus!
