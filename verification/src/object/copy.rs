use crate::code::SpannedObject;
use crate::object::clone_bindings;
use crate::object::CompiledFunction;
use crate::object::Environment;
use crate::object::equal;
use crate::object::Function;
use crate::object::lemma_compiled_model;
use crate::object::lemma_environment_model;
use crate::object::Object;
use crate::object::ObjectMap;
use crate::object::ObjectView;
use crate::object::pairs_view;
use crate::object::share;
use crate::object::strings_view;
use vstd::prelude::*;
use vstd::std_specs::cmp::PartialEqSpecImpl;

verus! {

impl Clone for ObjectMap {
    fn clone(&self) -> (copy: Self)
        ensures
            copy@ == self@,
    {
        let mut entries: Vec<(Object, Object)> = Vec::new();
        let mut i: usize = 0;
        while i < self.entries.len()
            invariant
                i <= self.entries.len(),
                entries@.len() == i,
                forall|j: int|
                    0 <= j < i ==> entries@[j].0@ == self.entries@[j].0@ && entries@[j].1@
                        == self.entries@[j].1@,
            decreases self.entries.len() - i,
        {
            let key = self.entries[i].0.clone();
            let value = self.entries[i].1.clone();
            entries.push((key, value));
            i += 1;
        }
        assert(pairs_view(entries@) =~= pairs_view(self.entries@));
        ObjectMap { entries }
    }
}

impl Default for ObjectMap {
    fn default() -> (map: Self)
        ensures
            map@.len() == 0,
    {
        ObjectMap::new()
    }
}

impl PartialEq for ObjectMap {
    fn eq(&self, other: &Self) -> (same: bool) {
        let one = Object::Hash(self.clone());
        let two = Object::Hash(other.clone());
        proof {
            crate::object::lemma_object_model(one);
            crate::object::lemma_object_model(two);
        }
        one.equals(&two)
    }
}

impl PartialEqSpecImpl for ObjectMap {
    open spec fn obeys_eq_spec() -> bool {
        true
    }

    open spec fn eq_spec(&self, other: &Self) -> bool {
        equal(ObjectView::Hash(self@), ObjectView::Hash(other@))
    }
}

impl PartialEq for SpannedObject {
    fn eq(&self, other: &Self) -> (same: bool) {
        self.object.equals(&other.object)
    }
}

impl PartialEqSpecImpl for SpannedObject {
    open spec fn obeys_eq_spec() -> bool {
        true
    }

    open spec fn eq_spec(&self, other: &Self) -> bool {
        equal(self@.object, other@.object)
    }
}

/// A copy of a list of strings.
pub fn clone_strings(items: &Vec<String>) -> (copies: Vec<String>)
    ensures
        strings_view(copies@) == strings_view(items@),
{
    let mut copies: Vec<String> = Vec::new();
    let mut i: usize = 0;
    while i < items.len()
        invariant
            i <= items.len(),
            copies@.len() == i,
            forall|j: int| 0 <= j < i ==> copies@[j]@ == items@[j]@,
        decreases items.len() - i,
    {
        copies.push(items[i].clone());
        i += 1;
    }
    assert(strings_view(copies@) =~= strings_view(items@));
    copies
}

impl Clone for Environment {
    fn clone(&self) -> (copy: Self)
        ensures
            copy@ == self@,
            strings_view(copy.output@) == strings_view(self.output@),
    {
        let outer = match &self.outer {
            Some(outer) => Some(share(outer)),
            None => None,
        };
        let copy = Environment {
            outer,
            values: clone_bindings(&self.values),
            output: clone_strings(&self.output),
        };
        proof {
            lemma_environment_model(copy);
            lemma_environment_model(*self);
        }
        copy
    }
}

impl Clone for Function {
    fn clone(&self) -> (copy: Self)
        ensures
            copy@ == self@,
    {
        let copy = Function {
            this: match &self.this {
                Some(name) => Some(name.clone()),
                None => None,
            },
            parameters: share(&self.parameters),
            body: share(&self.body),
            env: self.env.clone(),
        };
        proof {
            assert(copy.model().this == self.model().this);
            assert(copy.model().env == self.model().env);
        }
        copy
    }
}

impl Clone for CompiledFunction {
    fn clone(&self) -> (copy: Self)
        ensures
            copy@ == self@,
    {
        let copy = CompiledFunction {
            ops: share(&self.ops),
            params: share(&self.params),
            this: self.this.clone(),
            captured: clone_bindings(&self.captured),
        };
        proof {
            lemma_compiled_model(copy);
            lemma_compiled_model(*self);
            assert(copy.model().this == self.model().this);
        }
        copy
    }
}

impl Clone for crate::eval::ErrorKind {
    fn clone(&self) -> (copy: Self)
        ensures
            copy@ == self@,
    {
        match self {
            crate::eval::ErrorKind::InvalidOperands {
                operator,
                left,
                right,
            } => crate::eval::ErrorKind::InvalidOperands {
                operator: *operator,
                left: *left,
                right: *right,
            },
            crate::eval::ErrorKind::InvalidOperand {
                operator,
                operand,
            } => crate::eval::ErrorKind::InvalidOperand { operator: *operator, operand: *operand },
            crate::eval::ErrorKind::UndefinedVariable(
                name,
            ) => crate::eval::ErrorKind::UndefinedVariable(name.clone()),
            crate::eval::ErrorKind::NotAFunction => crate::eval::ErrorKind::NotAFunction,
            crate::eval::ErrorKind::WrongNumberOfArguments {
                expected,
                got,
            } => crate::eval::ErrorKind::WrongNumberOfArguments { expected: *expected, got: *got },
            crate::eval::ErrorKind::NotACollection => crate::eval::ErrorKind::NotACollection,
            crate::eval::ErrorKind::NotAnIndex => crate::eval::ErrorKind::NotAnIndex,
            crate::eval::ErrorKind::OutOfBounds { i, len } => crate::eval::ErrorKind::OutOfBounds {
                i: *i,
                len: *len,
            },
            crate::eval::ErrorKind::InvalidKey(kind) => crate::eval::ErrorKind::InvalidKey(*kind),
            crate::eval::ErrorKind::DivisionByZero => crate::eval::ErrorKind::DivisionByZero,
            crate::eval::ErrorKind::TooLongForLen => crate::eval::ErrorKind::TooLongForLen,
            crate::eval::ErrorKind::BadTypeForLen(
                kind,
            ) => crate::eval::ErrorKind::BadTypeForLen(*kind),
            crate::eval::ErrorKind::NotAnArray => crate::eval::ErrorKind::NotAnArray,
            crate::eval::ErrorKind::RecursionLimit => crate::eval::ErrorKind::RecursionLimit,
        }
    }
}

impl Clone for crate::eval::Error {
    fn clone(&self) -> (copy: Self)
        ensures
            copy@ == self@,
    {
        crate::eval::Error { span: self.span, kind: self.kind.clone() }
    }
}

impl Clone for crate::vm::Error {
    fn clone(&self) -> (copy: Self)
        ensures
            copy@ == self@,
    {
        match self {
            crate::vm::Error::Underflow => crate::vm::Error::Underflow,
            crate::vm::Error::Overflow => crate::vm::Error::Overflow,
            crate::vm::Error::StepLimit => crate::vm::Error::StepLimit,
            crate::vm::Error::InvalidConstant(index) => crate::vm::Error::InvalidConstant(*index),
            crate::vm::Error::Eval(error) => crate::vm::Error::Eval(error.clone()),
        }
    }
}

} // verus!
