use crate::eval::Error;
use crate::eval::ErrorKind;
use crate::eval::ErrorKindView;
use crate::eval::ErrorView;
use crate::object::display;
use crate::object::lemma_object_model;
use crate::object::Object;
use crate::object::objects_view;
use crate::object::ObjectView;
use crate::text::byte_len;
use crate::text::chars_of;
use crate::text::lemma_byte_len_is_encoded_len;
use crate::text::push_str;
use crate::token::Span;
use vstd::prelude::*;

verus! {

/// The functions that the language has built in.
#[derive(Clone, Copy, Debug, PartialEq, Eq, Structural)]
pub enum Intrinsic {
    Print,
    Len,
    First,
    Last,
    Rest,
    Push,
}

/// The built-in function called `name`, if there is one.
pub open spec fn intrinsic_named(name: Seq<char>) -> Option<Intrinsic> {
    if name == seq!['p', 'r', 'i', 'n', 't'] {
        Some(Intrinsic::Print)
    } else if name == seq!['l', 'e', 'n'] {
        Some(Intrinsic::Len)
    } else if name == seq!['f', 'i', 'r', 's', 't'] {
        Some(Intrinsic::First)
    } else if name == seq!['l', 'a', 's', 't'] {
        Some(Intrinsic::Last)
    } else if name == seq!['r', 'e', 's', 't'] {
        Some(Intrinsic::Rest)
    } else if name == seq!['p', 'u', 's', 'h'] {
        Some(Intrinsic::Push)
    } else {
        None
    }
}

/// The built-in function called `name`, if there is one.
pub fn lookup_intrinsic(name: &str) -> (found: Option<Intrinsic>)
    ensures
        found == intrinsic_named(name@),
{
    let chars = chars_of(name);
    let word = chars.as_slice();
    let n: usize = word.len();
    if n == 5 && word[0] == 'p' && word[1] == 'r' && word[2] == 'i' && word[3] == 'n' && word[4]
        == 't' {
        assert(word@ =~= seq!['p', 'r', 'i', 'n', 't']);
        Some(Intrinsic::Print)
    } else if n == 3 && word[0] == 'l' && word[1] == 'e' && word[2] == 'n' {
        assert(word@ =~= seq!['l', 'e', 'n']);
        Some(Intrinsic::Len)
    } else if n == 5 && word[0] == 'f' && word[1] == 'i' && word[2] == 'r' && word[3] == 's'
        && word[4] == 't' {
        assert(word@ =~= seq!['f', 'i', 'r', 's', 't']);
        Some(Intrinsic::First)
    } else if n == 4 && word[0] == 'l' && word[1] == 'a' && word[2] == 's' && word[3] == 't' {
        assert(word@ =~= seq!['l', 'a', 's', 't']);
        Some(Intrinsic::Last)
    } else if n == 4 && word[0] == 'r' && word[1] == 'e' && word[2] == 's' && word[3] == 't' {
        assert(word@ =~= seq!['r', 'e', 's', 't']);
        Some(Intrinsic::Rest)
    } else if n == 4 && word[0] == 'p' && word[1] == 'u' && word[2] == 's' && word[3] == 'h' {
        assert(word@ =~= seq!['p', 'u', 's', 'h']);
        Some(Intrinsic::Push)
    } else {
        proof {
            let print_name = seq!['p', 'r', 'i', 'n', 't'];
            assert(print_name.len() == 5 && print_name[0] == 'p' && print_name[1] == 'r'
                && print_name[2] == 'i' && print_name[3] == 'n' && print_name[4] == 't');
            let l3 = seq!['l', 'e', 'n'];
            assert(l3.len() == 3 && l3[0] == 'l' && l3[1] == 'e' && l3[2] == 'n');
            let f5 = seq!['f', 'i', 'r', 's', 't'];
            assert(f5.len() == 5 && f5[0] == 'f' && f5[1] == 'i' && f5[2] == 'r' && f5[3] == 's'
                && f5[4] == 't');
            let l4 = seq!['l', 'a', 's', 't'];
            assert(l4.len() == 4 && l4[0] == 'l' && l4[1] == 'a' && l4[2] == 's' && l4[3] == 't');
            let r4 = seq!['r', 'e', 's', 't'];
            assert(r4.len() == 4 && r4[0] == 'r' && r4[1] == 'e' && r4[2] == 's' && r4[3] == 't');
            let push_name = seq!['p', 'u', 's', 'h'];
            assert(push_name.len() == 4 && push_name[0] == 'p' && push_name[1] == 'u'
                && push_name[2] == 's' && push_name[3] == 'h');
        }
        None
    }
}

/// The range inside the parentheses of an argument list that covers `span`.
pub open spec fn inner_span(span: Span) -> Span {
    Span {
        start: if span.start < usize::MAX {
            (span.start + 1) as usize
        } else {
            span.start
        },
        end: if span.end > 0 {
            (span.end - 1) as usize
        } else {
            span.end
        },
    }
}

/// The range inside the parentheses of an argument list that covers `span`.
fn inner(span: Span) -> (inside: Span)
    ensures
        inside == inner_span(span),
{
    Span {
        start: if span.start < usize::MAX {
            span.start + 1
        } else {
            span.start
        },
        end: if span.end > 0 {
            span.end - 1
        } else {
            span.end
        },
    }
}

/// The error for a call with the wrong number of arguments.
pub open spec fn wrong_arity(expected: usize, got: usize, args_span: Span) -> ErrorView {
    ErrorView { span: args_span, kind: ErrorKindView::WrongNumberOfArguments { expected, got } }
}

/// The length as a value of the language, if it fits.
pub open spec fn length_value(n: nat, args_span: Span) -> Result<ObjectView, ErrorView> {
    if n > i64::MAX {
        Err(ErrorView { span: inner_span(args_span), kind: ErrorKindView::TooLongForLen })
    } else {
        Ok(ObjectView::Integer(n as i64))
    }
}

/// `len(x)`: the number of elements of an array, of entries of a map, or of
/// bytes of a string in UTF-8.
pub open spec fn len_result(args: Seq<ObjectView>, args_span: Span) -> Result<
    ObjectView,
    ErrorView,
> {
    if args.len() != 1 {
        Err(wrong_arity(1, args.len() as usize, args_span))
    } else {
        match args[0] {
            ObjectView::Array(items) => length_value(items.len(), args_span),
            ObjectView::Hash(entries) => length_value(entries.len(), args_span),
            ObjectView::String(text) => length_value(byte_len(text), args_span),
            other => Err(
                ErrorView {
                    span: inner_span(args_span),
                    kind: ErrorKindView::BadTypeForLen(other.kind()),
                },
            ),
        }
    }
}

/// The elements of the single argument, which must be an array.
pub open spec fn array_argument(args: Seq<ObjectView>, args_span: Span) -> Result<
    Seq<ObjectView>,
    ErrorView,
> {
    if args.len() != 1 {
        Err(wrong_arity(1, args.len() as usize, args_span))
    } else {
        match args[0] {
            ObjectView::Array(items) => Ok(items),
            _ => Err(ErrorView { span: args_span, kind: ErrorKindView::NotAnArray }),
        }
    }
}

/// `first(a)`: the first element of an array, `null` if it has none.
pub open spec fn first_result(args: Seq<ObjectView>, args_span: Span) -> Result<
    ObjectView,
    ErrorView,
> {
    match array_argument(args, args_span) {
        Ok(items) => Ok(
            if items.len() == 0 {
                ObjectView::Null
            } else {
                items.first()
            },
        ),
        Err(error) => Err(error),
    }
}

/// `last(a)`: the last element of an array, `null` if it has none.
pub open spec fn last_result(args: Seq<ObjectView>, args_span: Span) -> Result<
    ObjectView,
    ErrorView,
> {
    match array_argument(args, args_span) {
        Ok(items) => Ok(
            if items.len() == 0 {
                ObjectView::Null
            } else {
                items.last()
            },
        ),
        Err(error) => Err(error),
    }
}

/// `rest(a)`: a new array of all elements of an array but the first.
pub open spec fn rest_result(args: Seq<ObjectView>, args_span: Span) -> Result<
    ObjectView,
    ErrorView,
> {
    match array_argument(args, args_span) {
        Ok(items) => Ok(
            ObjectView::Array(
                if items.len() == 0 {
                    items
                } else {
                    items.drop_first()
                },
            ),
        ),
        Err(error) => Err(error),
    }
}

/// `push(a, v)`: a new array of the elements of `a` followed by `v`.
pub open spec fn push_result(args: Seq<ObjectView>, args_span: Span) -> Result<
    ObjectView,
    ErrorView,
> {
    if args.len() != 2 {
        Err(wrong_arity(2, args.len() as usize, args_span))
    } else {
        match args[0] {
            ObjectView::Array(items) => Ok(ObjectView::Array(items.push(args[1]))),
            _ => Err(ErrorView { span: args_span, kind: ErrorKindView::NotAnArray }),
        }
    }
}

/// The first `upto` of `args` as shown to the user, with one space between
/// them: the line that `print` produces.
pub open spec fn print_line(args: Seq<ObjectView>, upto: int) -> Seq<char>
    decreases upto,
{
    if upto <= 0 || upto > args.len() {
        Seq::empty()
    } else if upto == 1 {
        display(args[0])
    } else {
        print_line(args, upto - 1) + " "@ + display(args[upto - 1])
    }
}

/// What a call of a built-in function returns.
pub open spec fn intrinsic_result(which: Intrinsic, args: Seq<ObjectView>, args_span: Span) -> Result<
    ObjectView,
    ErrorView,
> {
    match which {
        Intrinsic::Print => Ok(ObjectView::Null),
        Intrinsic::Len => len_result(args, args_span),
        Intrinsic::First => first_result(args, args_span),
        Intrinsic::Last => last_result(args, args_span),
        Intrinsic::Rest => rest_result(args, args_span),
        Intrinsic::Push => push_result(args, args_span),
    }
}

/// The lines that a call of a built-in function prints.
pub open spec fn intrinsic_output(which: Intrinsic, args: Seq<ObjectView>) -> Seq<Seq<char>> {
    match which {
        Intrinsic::Print => seq![print_line(args, args.len() as int)],
        _ => Seq::empty(),
    }
}

/// The value of what a built-in function returns.
pub open spec fn returned_view(outcome: Result<Object, Error>) -> Result<ObjectView, ErrorView> {
    match outcome {
        Ok(value) => Ok(value@),
        Err(error) => Err(error@),
    }
}

/// The length `n` as a value of the language, if it fits.
fn length_object(n: usize, args_span: Span) -> (outcome: Result<Object, Error>)
    ensures
        returned_view(outcome) == length_value(n as nat, args_span),
{
    if n as u64 > i64::MAX as u64 {
        Err(Error { span: inner(args_span), kind: ErrorKind::TooLongForLen })
    } else {
        Ok(Object::Integer(n as i64))
    }
}

/// `len(x)`: the number of elements of an array, of entries of a map, or of
/// bytes of a string.
pub fn len(args: &Vec<Object>, args_span: Span) -> (outcome: Result<Object, Error>)
    ensures
        returned_view(outcome) == len_result(objects_view(args@), args_span),
{
    if args.len() != 1 {
        return Err(
            Error {
                span: args_span,
                kind: ErrorKind::WrongNumberOfArguments { expected: 1, got: args.len() },
            },
        );
    }
    proof {
        lemma_object_model(args[0]);
    }
    match &args[0] {
        Object::Array(items) => length_object(items.len(), args_span),
        Object::Hash(map) => length_object(map.len(), args_span),
        Object::String(text) => {
            proof {
                lemma_byte_len_is_encoded_len(text@);
            }
            length_object(text.as_str().as_bytes().len(), args_span)
        },
        other => Err(
            Error { span: inner(args_span), kind: ErrorKind::BadTypeForLen(other.kind()) },
        ),
    }
}

/// `first(a)`: the first element of an array, `null` if it has none.
pub fn first(args: &Vec<Object>, args_span: Span) -> (outcome: Result<Object, Error>)
    ensures
        returned_view(outcome) == first_result(objects_view(args@), args_span),
{
    if args.len() != 1 {
        return Err(
            Error {
                span: args_span,
                kind: ErrorKind::WrongNumberOfArguments { expected: 1, got: args.len() },
            },
        );
    }
    proof {
        lemma_object_model(args[0]);
    }
    match &args[0] {
        Object::Array(items) => {
            if items.len() == 0 {
                Ok(Object::Null)
            } else {
                Ok(items[0].clone())
            }
        },
        _ => Err(Error { span: args_span, kind: ErrorKind::NotAnArray }),
    }
}

/// `last(a)`: the last element of an array, `null` if it has none.
pub fn last(args: &Vec<Object>, args_span: Span) -> (outcome: Result<Object, Error>)
    ensures
        returned_view(outcome) == last_result(objects_view(args@), args_span),
{
    if args.len() != 1 {
        return Err(
            Error {
                span: args_span,
                kind: ErrorKind::WrongNumberOfArguments { expected: 1, got: args.len() },
            },
        );
    }
    proof {
        lemma_object_model(args[0]);
    }
    match &args[0] {
        Object::Array(items) => {
            if items.len() == 0 {
                Ok(Object::Null)
            } else {
                Ok(items[items.len() - 1].clone())
            }
        },
        _ => Err(Error { span: args_span, kind: ErrorKind::NotAnArray }),
    }
}

/// `rest(a)`: a new array of all elements of an array but the first.
pub fn rest(args: &Vec<Object>, args_span: Span) -> (outcome: Result<Object, Error>)
    ensures
        returned_view(outcome) == rest_result(objects_view(args@), args_span),
{
    if args.len() != 1 {
        return Err(
            Error {
                span: args_span,
                kind: ErrorKind::WrongNumberOfArguments { expected: 1, got: args.len() },
            },
        );
    }
    proof {
        lemma_object_model(args[0]);
    }
    match &args[0] {
        Object::Array(items) => {
            let mut tail: Vec<Object> = Vec::new();
            let mut i: usize = 1;
            while i < items.len()
                invariant
                    1 <= i,
                    i <= items.len() || items.len() == 0,
                    items.len() > 0 ==> tail@.len() == i - 1,
                    items.len() == 0 ==> tail@.len() == 0,
                    forall|j: int| 0 <= j < tail@.len() ==> tail@[j]@ == items@[j + 1]@,
                decreases items.len() - i,
            {
                tail.push(items[i].clone());
                i += 1;
            }
            let result = Object::Array(tail);
            proof {
                lemma_object_model(result);
                if items.len() > 0 {
                    assert(objects_view(tail@) =~= objects_view(items@).drop_first());
                } else {
                    assert(objects_view(tail@) =~= objects_view(items@));
                }
            }
            Ok(result)
        },
        _ => Err(Error { span: args_span, kind: ErrorKind::NotAnArray }),
    }
}

/// `push(a, v)`: a new array of the elements of `a` followed by `v`. The
/// array `a` itself stays as it was.
pub fn push(args: &Vec<Object>, args_span: Span) -> (outcome: Result<Object, Error>)
    ensures
        returned_view(outcome) == push_result(objects_view(args@), args_span),
{
    if args.len() != 2 {
        return Err(
            Error {
                span: args_span,
                kind: ErrorKind::WrongNumberOfArguments { expected: 2, got: args.len() },
            },
        );
    }
    proof {
        lemma_object_model(args[0]);
    }
    match &args[0] {
        Object::Array(items) => {
            let mut longer: Vec<Object> = Vec::new();
            let mut i: usize = 0;
            while i < items.len()
                invariant
                    i <= items.len(),
                    longer@.len() == i,
                    forall|j: int| 0 <= j < i ==> longer@[j]@ == items@[j]@,
                decreases items.len() - i,
            {
                longer.push(items[i].clone());
                i += 1;
            }
            longer.push(args[1].clone());
            let result = Object::Array(longer);
            proof {
                lemma_object_model(result);
                assert(objects_view(longer@) =~= objects_view(items@).push(args[1]@));
            }
            Ok(result)
        },
        _ => Err(Error { span: args_span, kind: ErrorKind::NotAnArray }),
    }
}

/// `print(args…)`: the line that shows the arguments, one space between
/// them. The caller is to write it out, followed by a line break.
pub fn print(args: &Vec<Object>) -> (line: String)
    ensures
        line@ == print_line(objects_view(args@), args@.len() as int),
{
    let mut line = String::new();
    let mut i: usize = 0;
    let ghost shown = objects_view(args@);
    while i < args.len()
        invariant
            i <= args.len(),
            shown == objects_view(args@),
            line@ == print_line(shown, i as int),
        decreases args.len() - i,
    {
        if i > 0 {
            push_str(&mut line, " ");
        }
        args[i].write_to(&mut line);
        i += 1;
        proof {
            if i == 1 {
                assert(line@ =~= display(shown[0]));
            }
        }
    }
    line
}

impl Intrinsic {
    /// Calls the built-in function on `args`. A line that it prints is put at
    /// the end of `output`.
    pub fn call(self, args: &Vec<Object>, args_span: Span, output: &mut Vec<String>) -> (outcome:
        Result<Object, Error>)
        ensures
            returned_view(outcome) == intrinsic_result(self, objects_view(args@), args_span),
            crate::object::strings_view(final(output)@) == crate::object::strings_view(
                old(output)@,
            ) + intrinsic_output(self, objects_view(args@)),
    {
        let ghost before = crate::object::strings_view(output@);
        match self {
            Intrinsic::Print => {
                let line = print(args);
                output.push(line);
                assert(crate::object::strings_view(output@) =~= before + seq![line@]);
                Ok(Object::Null)
            },
            Intrinsic::Len => {
                assert(before + Seq::<Seq<char>>::empty() =~= before);
                len(args, args_span)
            },
            Intrinsic::First => {
                assert(before + Seq::<Seq<char>>::empty() =~= before);
                first(args, args_span)
            },
            Intrinsic::Last => {
                assert(before + Seq::<Seq<char>>::empty() =~= before);
                last(args, args_span)
            },
            Intrinsic::Rest => {
                assert(before + Seq::<Seq<char>>::empty() =~= before);
                rest(args, args_span)
            },
            Intrinsic::Push => {
                assert(before + Seq::<Seq<char>>::empty() =~= before);
                push(args, args_span)
            },
        }
    }
}

/// `len` of an empty string, an empty array and an empty map is 0.
pub proof fn law_len_of_empty(args_span: Span)
    ensures
        len_result(seq![ObjectView::String(Seq::empty())], args_span) == Ok::<
            ObjectView,
            ErrorView,
        >(ObjectView::Integer(0)),
        len_result(seq![ObjectView::Array(Seq::empty())], args_span) == Ok::<
            ObjectView,
            ErrorView,
        >(ObjectView::Integer(0)),
        len_result(seq![ObjectView::Hash(Seq::empty())], args_span) == Ok::<ObjectView, ErrorView>(
            ObjectView::Integer(0),
        ),
{
}

} // verus!
