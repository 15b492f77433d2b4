use crate::ast::BlockStatement;
use crate::ast::BlockView;
use crate::ast::Identifier;
use crate::ast::identifiers_view;
use crate::ast::IdentifierView;
use crate::code::Op;
use crate::code::ops_view;
use crate::code::OpView;
use crate::text::decimal;
use crate::text::push_integer;
use crate::text::push_str;
use std::rc::Rc;
use vstd::prelude::*;
use vstd::std_specs::cmp::PartialEqSpecImpl;

pub mod copy;

verus! {

/// The type of a runtime value, as diagnostics name it.
#[derive(Clone, Copy, Debug, PartialEq, Eq, Structural)]
pub enum ObjectKind {
    Integer,
    Boolean,
    String,
    Null,
    Array,
    Hash,
    Return,
    Function,
    CompiledFunction,
}

impl ObjectKind {
    /// The name under which diagnostics mention the kind.
    pub open spec fn spec_name(self) -> &'static str {
        match self {
            ObjectKind::Integer => "Integer",
            ObjectKind::Boolean => "Boolean",
            ObjectKind::String => "String",
            ObjectKind::Null => "Null",
            ObjectKind::Array => "Array",
            ObjectKind::Hash => "Map",
            ObjectKind::Return => "Null",
            ObjectKind::Function => "Function",
            ObjectKind::CompiledFunction => "CompiledFunction",
        }
    }

    /// The name under which diagnostics mention the kind.
    pub fn name(self) -> (name: &'static str)
        ensures
            name@ == self.spec_name()@,
    {
        match self {
            ObjectKind::Integer => "Integer",
            ObjectKind::Boolean => "Boolean",
            ObjectKind::String => "String",
            ObjectKind::Null => "Null",
            ObjectKind::Array => "Array",
            ObjectKind::Hash => "Map",
            ObjectKind::Return => "Null",
            ObjectKind::Function => "Function",
            ObjectKind::CompiledFunction => "CompiledFunction",
        }
    }

    /// The diagnostic name as an owned string.
    pub fn to_string(&self) -> (text: String)
        ensures
            text@ == self.spec_name()@,
    {
        self.name().to_owned()
    }
}

/// A runtime value.
#[derive(Debug)]
pub enum Object {
    Integer(i64),
    Boolean(bool),
    String(String),
    Null,
    Array(Vec<Object>),
    Hash(ObjectMap),
    /// The sentinel that carries the value of a `return` up to the function
    /// or program boundary.
    Return(Box<Object>),
    /// A closure of the tree-walking evaluator.
    Function(Rc<Function>),
    /// A function of the stack machine.
    CompiledFunction(Rc<CompiledFunction>),
}

/// A map value: its entries in insertion order, no key twice.
#[derive(Debug)]
pub struct ObjectMap {
    pub entries: Vec<(Object, Object)>,
}

/// A closure of the tree-walking evaluator: a function literal together with
/// the environment it was evaluated in.
#[derive(Debug)]
pub struct Function {
    /// The name the function was bound to by `let`, under which its body can
    /// call it.
    pub this: Option<Identifier>,
    pub parameters: Rc<Vec<Identifier>>,
    pub body: Rc<BlockStatement>,
    pub env: Environment,
}

/// A function of the stack machine: its instructions, its parameter names,
/// and, once the machine has made a closure of it, the bindings it captured.
#[derive(Debug)]
pub struct CompiledFunction {
    pub ops: Rc<Vec<Op>>,
    pub params: Rc<Vec<String>>,
    /// The name the function was bound to by `let`, under which its body can
    /// call it.
    pub this: Option<String>,
    pub captured: Vec<(String, Object)>,
}

/// A chain of name bindings, innermost scope first.
#[derive(Debug)]
pub struct Environment {
    pub outer: Option<Rc<Environment>>,
    pub values: Vec<(String, Object)>,
    /// The lines that `print` has produced and that have not been taken yet.
    pub output: Vec<String>,
}

/// The mathematical value of an [`Object`].
pub enum ObjectView {
    Integer(i64),
    Boolean(bool),
    String(Seq<char>),
    Null,
    Array(Seq<ObjectView>),
    Hash(Seq<(ObjectView, ObjectView)>),
    Return(Box<ObjectView>),
    Function(Box<FunctionView>),
    CompiledFunction(Box<CompiledFunctionView>),
}

/// The mathematical value of a [`Function`].
pub struct FunctionView {
    pub this: Option<IdentifierView>,
    pub parameters: Seq<IdentifierView>,
    pub body: BlockView,
    pub env: EnvironmentView,
}

/// The mathematical value of a [`CompiledFunction`].
pub struct CompiledFunctionView {
    pub ops: Seq<OpView>,
    pub params: Seq<Seq<char>>,
    pub this: Option<Seq<char>>,
    pub captured: Seq<(Seq<char>, ObjectView)>,
}

/// The mathematical value of an [`Environment`]: its bindings, scope by scope.
pub struct EnvironmentView {
    pub outer: Option<Box<EnvironmentView>>,
    pub values: Seq<(Seq<char>, ObjectView)>,
}

/// The values of a sequence of strings.
pub open spec fn strings_view(items: Seq<String>) -> Seq<Seq<char>> {
    Seq::new(items.len(), |i: int| items[i]@)
}

/// The values of a sequence of objects.
pub open spec fn objects_view(items: Seq<Object>) -> Seq<ObjectView> {
    Seq::new(items.len(), |i: int| items[i].model())
}

/// The values of a sequence of pairs of objects.
pub open spec fn pairs_view(items: Seq<(Object, Object)>) -> Seq<(ObjectView, ObjectView)> {
    Seq::new(items.len(), |i: int| (items[i].0.model(), items[i].1.model()))
}

/// The values of a sequence of name bindings.
pub open spec fn bindings_view(items: Seq<(String, Object)>) -> Seq<(Seq<char>, ObjectView)> {
    Seq::new(items.len(), |i: int| (items[i].0@, items[i].1.model()))
}

impl Object {
    /// The mathematical value of the object.
    pub open spec fn model(self) -> ObjectView
        decreases self,
    {
        match self {
            Object::Integer(value) => ObjectView::Integer(value),
            Object::Boolean(value) => ObjectView::Boolean(value),
            Object::String(value) => ObjectView::String(value@),
            Object::Null => ObjectView::Null,
            Object::Array(items) => ObjectView::Array(
                Seq::new(
                    items@.len(),
                    |i: int|
                        if 0 <= i < items@.len() {
                            items@[i].model()
                        } else {
                            ObjectView::Null
                        },
                ),
            ),
            Object::Hash(map) => ObjectView::Hash(
                Seq::new(
                    map.entries@.len(),
                    |i: int|
                        if 0 <= i < map.entries@.len() {
                            (map.entries@[i].0.model(), map.entries@[i].1.model())
                        } else {
                            (ObjectView::Null, ObjectView::Null)
                        },
                ),
            ),
            Object::Return(value) => ObjectView::Return(Box::new((*value).model())),
            Object::Function(function) => ObjectView::Function(Box::new((*function).model())),
            Object::CompiledFunction(function) => ObjectView::CompiledFunction(
                Box::new((*function).model()),
            ),
        }
    }
}

impl Function {
    /// The mathematical value of the closure.
    pub open spec fn model(self) -> FunctionView
        decreases self,
    {
        FunctionView {
            this: match self.this {
                Some(name) => Some(name@),
                None => None,
            },
            parameters: identifiers_view((*self.parameters)@),
            body: (*self.body)@,
            env: self.env.model(),
        }
    }
}

impl CompiledFunction {
    /// The mathematical value of the function.
    pub open spec fn model(self) -> CompiledFunctionView
        decreases self,
    {
        CompiledFunctionView {
            ops: ops_view((*self.ops)@),
            params: strings_view((*self.params)@),
            this: match self.this {
                Some(name) => Some(name@),
                None => None,
            },
            captured: Seq::new(
                self.captured@.len(),
                |i: int|
                    if 0 <= i < self.captured@.len() {
                        (self.captured@[i].0@, self.captured@[i].1.model())
                    } else {
                        (Seq::<char>::empty(), ObjectView::Null)
                    },
            ),
        }
    }
}

impl Environment {
    /// The mathematical value of the environment.
    pub open spec fn model(self) -> EnvironmentView
        decreases self,
    {
        EnvironmentView {
            outer: match self.outer {
                Some(outer) => Some(Box::new((*outer).model())),
                None => None,
            },
            values: Seq::new(
                self.values@.len(),
                |i: int|
                    if 0 <= i < self.values@.len() {
                        (self.values@[i].0@, self.values@[i].1.model())
                    } else {
                        (Seq::<char>::empty(), ObjectView::Null)
                    },
            ),
        }
    }
}

impl View for Object {
    type V = ObjectView;

    open spec fn view(&self) -> ObjectView {
        self.model()
    }
}

impl View for Function {
    type V = FunctionView;

    open spec fn view(&self) -> FunctionView {
        self.model()
    }
}

impl View for CompiledFunction {
    type V = CompiledFunctionView;

    open spec fn view(&self) -> CompiledFunctionView {
        self.model()
    }
}

impl View for Environment {
    type V = EnvironmentView;

    open spec fn view(&self) -> EnvironmentView {
        self.model()
    }
}

impl View for ObjectMap {
    type V = Seq<(ObjectView, ObjectView)>;

    open spec fn view(&self) -> Seq<(ObjectView, ObjectView)> {
        pairs_view(self.entries@)
    }
}

/// The sequences inside an object's value are the element-wise values.
pub proof fn lemma_object_model(object: Object)
    ensures
        match object {
            Object::Array(items) => object.model() == ObjectView::Array(objects_view(items@)),
            Object::Hash(map) => object.model() == ObjectView::Hash(map@),
            _ => true,
        },
{
    match object {
        Object::Array(items) => {
            assert(object.model()->Array_0 =~= objects_view(items@));
        },
        Object::Hash(map) => {
            assert(object.model()->Hash_0 =~= map@);
        },
        _ => {},
    }
}

/// The bindings inside an environment's value are the element-wise values.
pub proof fn lemma_environment_model(env: Environment)
    ensures
        env.model().values == bindings_view(env.values@),
        env.model().outer == match env.outer {
            Some(outer) => Some(Box::new((*outer).model())),
            None => None::<Box<EnvironmentView>>,
        },
{
    assert(env.model().values =~= bindings_view(env.values@));
}

/// The bindings inside a compiled function's value are the element-wise values.
pub proof fn lemma_compiled_model(function: CompiledFunction)
    ensures
        function.model().captured == bindings_view(function.captured@),
{
    assert(function.model().captured =~= bindings_view(function.captured@));
}

/// `Rc::clone`: another handle to the same shared value.
#[verifier::external_body]
pub(crate) fn share<T>(handle: &Rc<T>) -> (copy: Rc<T>)
    ensures
        copy == *handle,
{
    Rc::clone(handle)
}

impl ObjectView {
    /// The type of the value.
    pub open spec fn kind(self) -> ObjectKind {
        match self {
            ObjectView::Integer(_) => ObjectKind::Integer,
            ObjectView::Boolean(_) => ObjectKind::Boolean,
            ObjectView::String(_) => ObjectKind::String,
            ObjectView::Null => ObjectKind::Null,
            ObjectView::Array(_) => ObjectKind::Array,
            ObjectView::Hash(_) => ObjectKind::Hash,
            ObjectView::Return(_) => ObjectKind::Return,
            ObjectView::Function(_) => ObjectKind::Function,
            ObjectView::CompiledFunction(_) => ObjectKind::CompiledFunction,
        }
    }

    /// Whether the value counts as true in a condition: every value does,
    /// except `null` and `false`.
    pub open spec fn truthy(self) -> bool {
        !(self is Null) && self != ObjectView::Boolean(false)
    }

    /// Whether the value is a function of either engine.
    pub open spec fn is_function(self) -> bool {
        self is Function || self is CompiledFunction
    }

    /// Whether the value may be used as a key of a map: integers, booleans
    /// and strings may.
    pub open spec fn is_key(self) -> bool {
        self is Integer || self is Boolean || self is String
    }
}

/// Equality of map keys: two integers, two booleans or two strings that are
/// the same. No other value equals any key.
pub open spec fn key_equal(a: ObjectView, b: ObjectView) -> bool {
    a.is_key() && a == b
}

/// The value stored under `key`, if any.
pub open spec fn map_get(entries: Seq<(ObjectView, ObjectView)>, key: ObjectView) -> Option<
    ObjectView,
>
    decreases entries.len(),
{
    if entries.len() == 0 {
        None
    } else if key_equal(entries[0].0, key) {
        Some(entries[0].1)
    } else {
        map_get(entries.drop_first(), key)
    }
}

/// Position of the first entry stored under `key`; the number of entries if
/// there is none.
pub open spec fn map_find(entries: Seq<(ObjectView, ObjectView)>, key: ObjectView) -> int
    decreases entries.len(),
{
    if entries.len() == 0 {
        0
    } else if key_equal(entries[0].0, key) {
        0
    } else {
        1 + map_find(entries.drop_first(), key)
    }
}

/// The entries after `value` has been stored under `key`: in place of the
/// entry with that key if there is one, else at the end.
pub open spec fn map_insert(
    entries: Seq<(ObjectView, ObjectView)>,
    key: ObjectView,
    value: ObjectView,
) -> Seq<(ObjectView, ObjectView)> {
    let at = map_find(entries, key);
    if at < entries.len() {
        entries.update(at, (entries[at].0, value))
    } else {
        entries.push((key, value))
    }
}

/// What `map_find` finds: the first entry with the key, which is the one
/// that `map_get` reads.
pub proof fn lemma_map_find(entries: Seq<(ObjectView, ObjectView)>, key: ObjectView)
    ensures
        0 <= map_find(entries, key) <= entries.len(),
        forall|j: int| 0 <= j < map_find(entries, key) ==> !key_equal(#[trigger] entries[j].0, key),
        map_find(entries, key) < entries.len() ==> key_equal(
            entries[map_find(entries, key)].0,
            key,
        ) && map_get(entries, key) == Some(entries[map_find(entries, key)].1),
        map_find(entries, key) == entries.len() ==> map_get(entries, key) is None,
    decreases entries.len(),
{
    if entries.len() > 0 && !key_equal(entries[0].0, key) {
        let rest = entries.drop_first();
        lemma_map_find(rest, key);
        assert forall|j: int| 0 <= j < map_find(entries, key) implies !key_equal(
            #[trigger] entries[j].0,
            key,
        ) by {
            if j > 0 {
                assert(entries[j] == rest[j - 1]);
            }
        }
    }
}

/// Structural equality of values. A function equals nothing, itself included.
pub open spec fn equal(a: ObjectView, b: ObjectView) -> bool
    decreases a,
{
    match (a, b) {
        (ObjectView::Integer(x), ObjectView::Integer(y)) => x == y,
        (ObjectView::Boolean(x), ObjectView::Boolean(y)) => x == y,
        (ObjectView::String(x), ObjectView::String(y)) => x == y,
        (ObjectView::Null, ObjectView::Null) => true,
        (ObjectView::Array(x), ObjectView::Array(y)) => x.len() == y.len() && forall|i: int|
            0 <= i < x.len() ==> equal(#[trigger] x[i], y[i]),
        (ObjectView::Hash(x), ObjectView::Hash(y)) => x.len() == y.len() && forall|i: int|
            0 <= i < x.len() ==> hash_entry_matches(#[trigger] x[i], y),
        (ObjectView::Return(x), ObjectView::Return(y)) => equal(*x, *y),
        _ => false,
    }
}

/// Whether the map `entries` holds, under the key of `entry`, a value equal
/// to that of `entry`.
pub open spec fn hash_entry_matches(
    entry: (ObjectView, ObjectView),
    entries: Seq<(ObjectView, ObjectView)>,
) -> bool
    decreases entry,
{
    match map_get(entries, entry.0) {
        Some(value) => equal(entry.1, value),
        None => false,
    }
}

impl Clone for Object {
    fn clone(&self) -> (copy: Self)
        ensures
            copy@ == self@,
        decreases self,
    {
        match self {
            Object::Integer(value) => Object::Integer(*value),
            Object::Boolean(value) => Object::Boolean(*value),
            Object::String(value) => Object::String(value.clone()),
            Object::Null => Object::Null,
            Object::Array(items) => {
                let mut copies: Vec<Object> = Vec::new();
                let mut i: usize = 0;
                while i < items.len()
                    invariant
                        i <= items.len(),
                        decreases_to!(self => items),
                        copies@.len() == i,
                        forall|j: int| 0 <= j < i ==> copies@[j].model() == items@[j].model(),
                    decreases items.len() - i,
                {
                    proof {
                        assert(decreases_to!(*items => items[i as int]));
                    }
                    let item = items[i].clone();
                    copies.push(item);
                    i += 1;
                }
                let copy = Object::Array(copies);
                proof {
                    lemma_object_model(copy);
                    lemma_object_model(*self);
                    assert(objects_view(copies@) =~= objects_view(items@));
                }
                copy
            },
            Object::Hash(map) => {
                let mut copies: Vec<(Object, Object)> = Vec::new();
                let mut i: usize = 0;
                while i < map.entries.len()
                    invariant
                        i <= map.entries.len(),
                        decreases_to!(self => map.entries),
                        copies@.len() == i,
                        forall|j: int|
                            0 <= j < i ==> copies@[j].0.model() == map.entries@[j].0.model()
                                && copies@[j].1.model() == map.entries@[j].1.model(),
                    decreases map.entries.len() - i,
                {
                    proof {
                        assert(decreases_to!(map.entries => map.entries[i as int]));
                    }
                    let key = map.entries[i].0.clone();
                    let value = map.entries[i].1.clone();
                    copies.push((key, value));
                    i += 1;
                }
                let copy = Object::Hash(ObjectMap { entries: copies });
                proof {
                    lemma_object_model(copy);
                    lemma_object_model(*self);
                    assert(pairs_view(copies@) =~= pairs_view(map.entries@));
                }
                copy
            },
            Object::Return(value) => Object::Return(Box::new((**value).clone())),
            Object::Function(function) => Object::Function(share(function)),
            Object::CompiledFunction(function) => Object::CompiledFunction(share(function)),
        }
    }
}

/// A copy of a list of name bindings.
pub fn clone_bindings(items: &Vec<(String, Object)>) -> (copies: Vec<(String, Object)>)
    ensures
        bindings_view(copies@) == bindings_view(items@),
{
    let mut copies: Vec<(String, Object)> = Vec::new();
    let mut i: usize = 0;
    while i < items.len()
        invariant
            i <= items.len(),
            copies@.len() == i,
            forall|j: int|
                0 <= j < i ==> copies@[j].0@ == items@[j].0@ && copies@[j].1.model()
                    == items@[j].1.model(),
        decreases items.len() - i,
    {
        let name = items[i].0.clone();
        let value = items[i].1.clone();
        copies.push((name, value));
        i += 1;
    }
    assert(bindings_view(copies@) =~= bindings_view(items@));
    copies
}

/// The value bound to `name` in a list of bindings: that of the first entry
/// with this name.
pub open spec fn binding_of(items: Seq<(Seq<char>, ObjectView)>, name: Seq<char>) -> Option<
    ObjectView,
>
    decreases items.len(),
{
    if items.len() == 0 {
        None
    } else if items[0].0 == name {
        Some(items[0].1)
    } else {
        binding_of(items.drop_first(), name)
    }
}

/// Position of the first entry named `name`; the number of entries if there
/// is none.
pub open spec fn binding_index(items: Seq<(Seq<char>, ObjectView)>, name: Seq<char>) -> int
    decreases items.len(),
{
    if items.len() == 0 {
        0
    } else if items[0].0 == name {
        0
    } else {
        1 + binding_index(items.drop_first(), name)
    }
}

/// The bindings after `name` has been bound to `value`: in place of the
/// entry with that name if there is one, else at the end.
pub open spec fn bind(items: Seq<(Seq<char>, ObjectView)>, name: Seq<char>, value: ObjectView) -> Seq<
    (Seq<char>, ObjectView),
> {
    let at = binding_index(items, name);
    if at < items.len() {
        items.update(at, (name, value))
    } else {
        items.push((name, value))
    }
}

/// What `binding_index` finds: the first entry with the name, which is the
/// one that `binding_of` reads.
pub proof fn lemma_binding_index(items: Seq<(Seq<char>, ObjectView)>, name: Seq<char>)
    ensures
        0 <= binding_index(items, name) <= items.len(),
        forall|j: int| 0 <= j < binding_index(items, name) ==> (#[trigger] items[j]).0 != name,
        binding_index(items, name) < items.len() ==> items[binding_index(items, name)].0 == name
            && binding_of(items, name) == Some(items[binding_index(items, name)].1),
        binding_index(items, name) == items.len() ==> binding_of(items, name) is None,
    decreases items.len(),
{
    if items.len() > 0 && items[0].0 != name {
        let rest = items.drop_first();
        lemma_binding_index(rest, name);
        assert forall|j: int| 0 <= j < binding_index(items, name) implies (#[trigger] items[j]).0
            != name by {
            if j > 0 {
                assert(items[j] == rest[j - 1]);
            }
        }
    }
}

/// Position of the first entry named `name`, or the number of entries if
/// there is none.
pub fn find_binding(items: &Vec<(String, Object)>, name: &String) -> (at: usize)
    ensures
        at == binding_index(bindings_view(items@), name@),
        at <= items.len(),
{
    let ghost view = bindings_view(items@);
    let mut i: usize = 0;
    while i < items.len()
        invariant
            i <= items.len(),
            view == bindings_view(items@),
            forall|j: int| 0 <= j < i ==> (#[trigger] view[j]).0 != name@,
        decreases items.len() - i,
    {
        if items[i].0 == *name {
            proof {
                lemma_binding_index(view, name@);
                assert(view[i as int].0 == name@);
                let at = binding_index(view, name@);
                if at < i {
                    assert(view[at].0 == name@);
                }
            }
            return i;
        }
        assert(view[i as int].0 != name@);
        i += 1;
    }
    proof {
        lemma_binding_index(view, name@);
        let at = binding_index(view, name@);
        if at < view.len() {
            assert(view[at].0 == name@);
        }
    }
    i
}

/// Binds `name` to `value` in a list of bindings.
pub fn insert_binding(items: &mut Vec<(String, Object)>, name: String, value: Object)
    ensures
        bindings_view(final(items)@) == bind(bindings_view(old(items)@), name@, value@),
{
    let at = find_binding(items, &name);
    if at < items.len() {
        items[at] = (name, value);
        assert(bindings_view(items@) =~= bind(bindings_view(old(items)@), name@, value@));
    } else {
        items.push((name, value));
        assert(bindings_view(items@) =~= bind(bindings_view(old(items)@), name@, value@));
    }
}

impl Object {
    /// The type of the value.
    pub fn kind(&self) -> (kind: ObjectKind)
        ensures
            kind == self@.kind(),
    {
        match self {
            Object::Integer(_) => ObjectKind::Integer,
            Object::Boolean(_) => ObjectKind::Boolean,
            Object::String(_) => ObjectKind::String,
            Object::Null => ObjectKind::Null,
            Object::Array(_) => ObjectKind::Array,
            Object::Hash(_) => ObjectKind::Hash,
            Object::Return(_) => ObjectKind::Return,
            Object::Function(_) => ObjectKind::Function,
            Object::CompiledFunction(_) => ObjectKind::CompiledFunction,
        }
    }

    /// Whether the value counts as true in a condition: every value does,
    /// except `null` and `false`.
    pub fn truthy(&self) -> (truthy: bool)
        ensures
            truthy == self@.truthy(),
            truthy <==> !(self@ is Null || self@ == ObjectView::Boolean(false)),
    {
        match self {
            Object::Null => false,
            Object::Boolean(value) => *value,
            _ => true,
        }
    }

    /// Whether the value is a function of either engine.
    pub fn is_function(&self) -> (function: bool)
        ensures
            function == self@.is_function(),
    {
        match self {
            Object::Function(_) => true,
            Object::CompiledFunction(_) => true,
            _ => false,
        }
    }

    /// Whether the value may be used as a key of a map.
    pub fn is_key(&self) -> (key: bool)
        ensures
            key == self@.is_key(),
    {
        match self {
            Object::Integer(_) => true,
            Object::Boolean(_) => true,
            Object::String(_) => true,
            _ => false,
        }
    }

    /// Whether `self`, as a key of a map, is the key `other`.
    pub fn key_equals(&self, other: &Object) -> (same: bool)
        ensures
            same == key_equal(self@, other@),
    {
        match (self, other) {
            (Object::Integer(x), Object::Integer(y)) => *x == *y,
            (Object::Boolean(x), Object::Boolean(y)) => *x == *y,
            (Object::String(x), Object::String(y)) => *x == *y,
            _ => false,
        }
    }

    /// Structural equality. A function equals nothing, itself included.
    pub fn equals(&self, other: &Object) -> (same: bool)
        ensures
            same == equal(self@, other@),
        decreases self,
    {
        match (self, other) {
            (Object::Integer(x), Object::Integer(y)) => *x == *y,
            (Object::Boolean(x), Object::Boolean(y)) => *x == *y,
            (Object::String(x), Object::String(y)) => *x == *y,
            (Object::Null, Object::Null) => true,
            (Object::Array(x), Object::Array(y)) => {
                proof {
                    lemma_object_model(*self);
                    lemma_object_model(*other);
                }
                if x.len() != y.len() {
                    return false;
                }
                let mut i: usize = 0;
                while i < x.len()
                    invariant
                        i <= x.len(),
                        x.len() == y.len(),
                        decreases_to!(self => x),
                        self@ == ObjectView::Array(objects_view(x@)),
                        other@ == ObjectView::Array(objects_view(y@)),
                        forall|j: int|
                            0 <= j < i ==> equal(
                                #[trigger] objects_view(x@)[j],
                                objects_view(y@)[j],
                            ),
                    decreases x.len() - i,
                {
                    proof {
                        assert(decreases_to!(*x => x[i as int]));
                    }
                    if !x[i].equals(&y[i]) {
                        assert(!equal(objects_view(x@)[i as int], objects_view(y@)[i as int]));
                        return false;
                    }
                    i += 1;
                }
                true
            },
            (Object::Hash(x), Object::Hash(y)) => {
                proof {
                    lemma_object_model(*self);
                    lemma_object_model(*other);
                }
                if x.entries.len() != y.entries.len() {
                    return false;
                }
                let mut i: usize = 0;
                while i < x.entries.len()
                    invariant
                        i <= x.entries.len(),
                        x.entries.len() == y.entries.len(),
                        decreases_to!(self => x.entries),
                        self@ == ObjectView::Hash(x@),
                        other@ == ObjectView::Hash(y@),
                        forall|j: int| 0 <= j < i ==> hash_entry_matches(#[trigger] x@[j], y@),
                    decreases x.entries.len() - i,
                {
                    proof {
                        assert(decreases_to!(x.entries => x.entries[i as int]));
                    }
                    let at = y.find(&x.entries[i].0);
                    if at >= y.entries.len() {
                        assert(!hash_entry_matches(x@[i as int], y@));
                        return false;
                    }
                    if !x.entries[i].1.equals(&y.entries[at].1) {
                        assert(!hash_entry_matches(x@[i as int], y@));
                        return false;
                    }
                    assert(hash_entry_matches(x@[i as int], y@));
                    i += 1;
                }
                true
            },
            (Object::Return(x), Object::Return(y)) => (**x).equals(&**y),
            _ => false,
        }
    }
}

impl ObjectMap {
    /// The map without entries.
    pub fn new() -> (map: ObjectMap)
        ensures
            map@.len() == 0,
    {
        ObjectMap { entries: Vec::new() }
    }

    /// The number of entries.
    pub fn len(&self) -> (n: usize)
        ensures
            n == self@.len(),
    {
        self.entries.len()
    }

    /// Position of the entry stored under `key`, or the number of entries if
    /// there is none.
    pub fn find(&self, key: &Object) -> (at: usize)
        ensures
            at == map_find(self@, key@),
            at <= self.entries.len(),
            at < self.entries.len() ==> map_get(self@, key@) == Some(
                self.entries@[at as int].1.model(),
            ),
            at == self.entries.len() ==> map_get(self@, key@) is None,
    {
        let ghost view = self@;
        let mut i: usize = 0;
        while i < self.entries.len()
            invariant
                i <= self.entries.len(),
                view == self@,
                forall|j: int| 0 <= j < i ==> !key_equal((#[trigger] view[j]).0, key@),
            decreases self.entries.len() - i,
        {
            if self.entries[i].0.key_equals(key) {
                proof {
                    lemma_map_find(view, key@);
                    assert(key_equal(view[i as int].0, key@));
                    let at = map_find(view, key@);
                    if at < i {
                        assert(key_equal(view[at].0, key@));
                    }
                }
                return i;
            }
            assert(!key_equal(view[i as int].0, key@));
            i += 1;
        }
        proof {
            lemma_map_find(view, key@);
            let at = map_find(view, key@);
            if at < view.len() {
                assert(key_equal(view[at].0, key@));
            }
        }
        i
    }

    /// The value stored under `key`, if any.
    pub fn get(&self, key: &Object) -> (value: Option<&Object>)
        ensures
            match map_get(self@, key@) {
                Some(found) => value is Some && value->0@ == found,
                None => value is None,
            },
    {
        let at = self.find(key);
        if at < self.entries.len() {
            Some(&self.entries[at].1)
        } else {
            None
        }
    }

    /// Stores `value` under `key`: in place of the entry with that key if
    /// there is one, else at the end.
    pub fn insert(&mut self, key: Object, value: Object)
        ensures
            final(self)@ == map_insert(old(self)@, key@, value@),
    {
        let at = self.find(&key);
        if at < self.entries.len() {
            let ghost before = self.entries@;
            let old_key = self.entries[at].0.clone();
            self.entries[at] = (old_key, value);
            assert(self@ =~= map_insert(old(self)@, key@, value@));
        } else {
            self.entries.push((key, value));
            assert(self@ =~= map_insert(old(self)@, key@, value@));
        }
    }
}

/// How a function value is shown: `<function>`, or `<function name>` where
/// it was bound to a name by `let`.
pub open spec fn display_function(this: Option<Seq<char>>) -> Seq<char> {
    match this {
        Some(name) => "<function "@ + name + ">"@,
        None => "<function>"@,
    }
}

/// How a value is shown to the user.
pub open spec fn display(object: ObjectView) -> Seq<char>
    decreases object, 0int,
{
    match object {
        ObjectView::Integer(value) => decimal(value as int),
        ObjectView::Boolean(value) => if value {
            "true"@
        } else {
            "false"@
        },
        ObjectView::String(value) => value,
        ObjectView::Null => "null"@,
        ObjectView::Return(_) => "null"@,
        ObjectView::Array(items) => "["@ + display_items(items, items.len() as int) + "]"@,
        ObjectView::Hash(entries) => "{"@ + display_entries(entries, entries.len() as int) + "}"@,
        ObjectView::Function(function) => display_function(
            match function.this {
                Some(name) => Some(name.value),
                None => None,
            },
        ),
        ObjectView::CompiledFunction(function) => display_function(function.this),
    }
}

/// The first `upto` of `items` as shown to the user, with `, ` between them.
pub open spec fn display_items(items: Seq<ObjectView>, upto: int) -> Seq<char>
    decreases items, upto,
{
    if upto <= 0 || upto > items.len() {
        Seq::empty()
    } else if upto == 1 {
        display(items[0])
    } else {
        display_items(items, upto - 1) + ", "@ + display(items[upto - 1])
    }
}

/// The first `upto` of `entries` as shown to the user, each as `key: value`,
/// with `, ` between them.
pub open spec fn display_entries(entries: Seq<(ObjectView, ObjectView)>, upto: int) -> Seq<char>
    decreases entries, upto,
{
    if upto <= 0 || upto > entries.len() {
        Seq::empty()
    } else if upto == 1 {
        display(entries[0].0) + ": "@ + display(entries[0].1)
    } else {
        display_entries(entries, upto - 1) + ", "@ + display(entries[upto - 1].0) + ": "@
            + display(entries[upto - 1].1)
    }
}

impl Object {
    /// Appends the value, as shown to the user, to `text`.
    pub fn write_to(&self, text: &mut String)
        ensures
            final(text)@ == old(text)@ + display(self@),
        decreases self,
    {
        match self {
            Object::Integer(value) => {
                push_integer(text, *value);
            },
            Object::Boolean(value) => {
                if *value {
                    push_str(text, "true");
                } else {
                    push_str(text, "false");
                }
            },
            Object::String(value) => {
                push_str(text, value.as_str());
            },
            Object::Null => {
                push_str(text, "null");
            },
            Object::Return(_) => {
                push_str(text, "null");
            },
            Object::Array(items) => {
                proof {
                    lemma_object_model(*self);
                }
                push_str(text, "[");
                let mut i: usize = 0;
                while i < items.len()
                    invariant
                        i <= items.len(),
                        decreases_to!(self => items),
                        self@ == ObjectView::Array(objects_view(items@)),
                        text@ == old(text)@ + "["@ + display_items(objects_view(items@), i as int),
                    decreases items.len() - i,
                {
                    proof {
                        assert(decreases_to!(*items => items[i as int]));
                    }
                    let ghost before = text@;
                    if i > 0 {
                        push_str(text, ", ");
                    }
                    items[i].write_to(text);
                    i += 1;
                    proof {
                        let shown = objects_view(items@);
                        let item = display(shown[i - 1]);
                        if i > 1 {
                            assert(text@ =~= old(text)@ + "["@ + (display_items(shown, i - 1)
                                + ", "@ + item));
                        } else {
                            assert(display_items(shown, 0) =~= Seq::<char>::empty());
                            assert(text@ =~= old(text)@ + "["@ + item);
                        }
                    }
                }
                push_str(text, "]");
                proof {
                    let shown = objects_view(items@);
                    assert(text@ =~= old(text)@ + ("["@ + display_items(shown, shown.len() as int)
                        + "]"@));
                }
            },
            Object::Hash(map) => {
                proof {
                    lemma_object_model(*self);
                }
                push_str(text, "{");
                let mut i: usize = 0;
                while i < map.entries.len()
                    invariant
                        i <= map.entries.len(),
                        decreases_to!(self => map.entries),
                        self@ == ObjectView::Hash(map@),
                        text@ == old(text)@ + "{"@ + display_entries(map@, i as int),
                    decreases map.entries.len() - i,
                {
                    proof {
                        assert(decreases_to!(map.entries => map.entries[i as int]));
                    }
                    if i > 0 {
                        push_str(text, ", ");
                    }
                    map.entries[i].0.write_to(text);
                    push_str(text, ": ");
                    map.entries[i].1.write_to(text);
                    i += 1;
                    proof {
                        let shown = map@;
                        let key = display(shown[i - 1].0);
                        let value = display(shown[i - 1].1);
                        if i > 1 {
                            assert(text@ =~= old(text)@ + "{"@ + (display_entries(shown, i - 1)
                                + ", "@ + key + ": "@ + value));
                        } else {
                            assert(display_entries(shown, 0) =~= Seq::<char>::empty());
                            assert(text@ =~= old(text)@ + "{"@ + (key + ": "@ + value));
                        }
                    }
                }
                push_str(text, "}");
                proof {
                    let shown = map@;
                    assert(text@ =~= old(text)@ + ("{"@ + display_entries(
                        shown,
                        shown.len() as int,
                    ) + "}"@));
                }
            },
            Object::Function(function) => {
                match &function.this {
                    Some(name) => {
                        push_str(text, "<function ");
                        push_str(text, name.value.as_str());
                        push_str(text, ">");
                        assert(text@ =~= old(text)@ + ("<function "@ + name.value@ + ">"@));
                    },
                    None => {
                        assert(function.model().this is None);
                        assert(display_function(None) == "<function>"@);
                        push_str(text, "<function>");
                    },
                }
            },
            Object::CompiledFunction(function) => {
                match &function.this {
                    Some(name) => {
                        push_str(text, "<function ");
                        push_str(text, name.as_str());
                        push_str(text, ">");
                        assert(text@ =~= old(text)@ + ("<function "@ + name@ + ">"@));
                    },
                    None => {
                        assert(function.model().this is None);
                        assert(display_function(None) == "<function>"@);
                        push_str(text, "<function>");
                    },
                }
            },
        }
    }

    /// The value as shown to the user.
    pub fn to_string(&self) -> (text: String)
        ensures
            text@ == display(self@),
    {
        let mut text = String::new();
        self.write_to(&mut text);
        assert(Seq::<char>::empty() + display(self@) =~= display(self@));
        text
    }
}

impl PartialEq for Object {
    fn eq(&self, other: &Self) -> (same: bool) {
        self.equals(other)
    }
}

impl PartialEqSpecImpl for Object {
    open spec fn obeys_eq_spec() -> bool {
        true
    }

    open spec fn eq_spec(&self, other: &Self) -> bool {
        equal(self@, other@)
    }
}

} // verus!
