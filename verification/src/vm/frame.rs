use crate::code::Op;
use crate::object::bindings_view;
use crate::object::CompiledFunction;
use crate::object::CompiledFunctionView;
use crate::object::Object;
use crate::object::ObjectView;
use crate::token::Span;
use std::rc::Rc;
use vstd::prelude::*;

verus! {

/// A call in progress: the function, where it stands in it, where it was
/// called, and the names bound in it.
#[derive(Debug)]
pub struct Frame {
    pub function: Rc<CompiledFunction>,
    pub ip: usize,
    pub call_span: Span,
    pub locals: Vec<(String, Object)>,
}

/// The mathematical value of a [`Frame`].
pub struct FrameView {
    pub function: CompiledFunctionView,
    pub ip: usize,
    pub call_span: Span,
    pub locals: Seq<(Seq<char>, ObjectView)>,
}

impl View for Frame {
    type V = FrameView;

    open spec fn view(&self) -> FrameView {
        FrameView {
            function: (*self.function).model(),
            ip: self.ip,
            call_span: self.call_span,
            locals: bindings_view(self.locals@),
        }
    }
}

impl Frame {
    /// A frame at the start of `function`, with no names bound.
    pub fn new(function: Rc<CompiledFunction>, call_span: Span) -> (frame: Frame)
        ensures
            frame@ == (FrameView {
                function: (*function).model(),
                ip: 0,
                call_span,
                locals: Seq::empty(),
            }),
    {
        let frame = Frame { function, ip: 0, call_span, locals: Vec::new() };
        assert(bindings_view(frame.locals@) =~= Seq::empty());
        frame
    }

    /// The instructions of the frame's function.
    pub fn ops(&self) -> (ops: &Vec<Op>)
        ensures
            *ops == *self.function.ops,
    {
        &self.function.ops
    }
}

} // verus!
