use crate::ast::ExpressionView;
use crate::ast::IdentifierView;
use crate::ast::InfixOperator;
use crate::ast::StatementView;
use crate::eval::array_element;
use crate::eval::ErrorKindView;
use crate::eval::ErrorView;
use crate::eval::eval_expr;
use crate::eval::Evaluated;
use crate::eval::exec_statement;
use crate::intrinsic::Intrinsic;
use crate::intrinsic::intrinsic_result;
use crate::intrinsic::push_result;
use crate::object::EnvironmentView;
use crate::object::key_equal;
use crate::object::lemma_map_find;
use crate::object::map_find;
use crate::object::map_get;
use crate::object::map_insert;
use crate::object::ObjectView;
use crate::token::Span;
use vstd::prelude::*;

verus! {

/// Whether an expression is made of integer literals and the operators
/// `+`, `-` and `*` alone.
pub open spec fn is_arithmetic(expr: ExpressionView) -> bool
    decreases expr,
{
    match expr {
        ExpressionView::Integer { .. } => true,
        ExpressionView::Infix { left, operator, right } => (operator == InfixOperator::Add
            || operator == InfixOperator::Sub || operator == InfixOperator::Mul) && is_arithmetic(
            *left,
        ) && is_arithmetic(*right),
        _ => false,
    }
}

/// The value of an arithmetic expression in 64-bit arithmetic that wraps
/// around.
pub open spec fn arithmetic_value(expr: ExpressionView) -> i64
    decreases expr,
{
    match expr {
        ExpressionView::Integer { value, .. } => value,
        ExpressionView::Infix { left, operator, right } => match operator {
            InfixOperator::Add => arithmetic_value(*left).wrapping_add(arithmetic_value(*right)),
            InfixOperator::Sub => arithmetic_value(*left).wrapping_sub(arithmetic_value(*right)),
            _ => arithmetic_value(*left).wrapping_mul(arithmetic_value(*right)),
        },
        _ => 0,
    }
}

/// The evaluator gives an expression made of integer literals, `+`, `-` and
/// `*` the value that plain integer arithmetic gives it, where that
/// arithmetic wraps around on overflow; and it prints nothing.
pub proof fn law_arithmetic(
    env: EnvironmentView,
    expr: ExpressionView,
    hint: Option<IdentifierView>,
    depth: nat,
    printed: Seq<Seq<char>>,
)
    requires
        is_arithmetic(expr),
    ensures
        eval_expr(env, expr, hint, depth, printed) == (Evaluated {
            result: Ok(ObjectView::Integer(arithmetic_value(expr))),
            printed,
        }),
    decreases expr,
{
    match expr {
        ExpressionView::Infix { left, operator, right } => {
            law_arithmetic(env, *left, None, depth, printed);
            law_arithmetic(env, *right, None, depth, printed);
        },
        _ => {},
    }
}

/// A statement that is an expression leaves the bindings of the environment
/// as they were: whatever it calls, no value that a name is bound to changes.
pub proof fn law_expressions_keep_bindings(
    env: EnvironmentView,
    expr: ExpressionView,
    depth: nat,
    printed: Seq<Seq<char>>,
)
    ensures
        exec_statement(env, StatementView::Expression(expr), depth, printed).env == env,
{
}

/// `push(a, v)` comes to a new array: the elements of `a` followed by `v`.
pub proof fn law_push(items: Seq<ObjectView>, value: ObjectView, args_span: Span)
    ensures
        push_result(seq![ObjectView::Array(items), value], args_span) == Ok::<ObjectView, ErrorView>(
            ObjectView::Array(items.push(value)),
        ),
        intrinsic_result(Intrinsic::Push, seq![ObjectView::Array(items), value], args_span)
            == Ok::<ObjectView, ErrorView>(ObjectView::Array(items.push(value))),
{
}

/// An index below zero or not below the length of the array is an error,
/// and every other integer index gives the element at it.
pub proof fn law_index_bounds(items: Seq<ObjectView>, i: i64)
    ensures
        (i < 0 || i >= items.len()) ==> array_element(items, ObjectView::Integer(i)) == Err::<
            ObjectView,
            ErrorKindView,
        >(ErrorKindView::OutOfBounds { i, len: items.len() as usize }),
        0 <= i < items.len() ==> array_element(items, ObjectView::Integer(i)) == Ok::<
            ObjectView,
            ErrorKindView,
        >(items[i as int]),
{
}

/// The map that holds the first `upto` of `entries`, stored one after the
/// other.
pub open spec fn map_of(entries: Seq<(ObjectView, ObjectView)>, upto: int) -> Seq<
    (ObjectView, ObjectView),
>
    decreases upto,
{
    if upto <= 0 || upto > entries.len() {
        Seq::empty()
    } else {
        map_insert(map_of(entries, upto - 1), entries[upto - 1].0, entries[upto - 1].1)
    }
}

/// Whether all keys of `entries` may be keys, and no two are the same.
pub open spec fn distinct_keys(entries: Seq<(ObjectView, ObjectView)>) -> bool {
    &&& forall|i: int| 0 <= i < entries.len() ==> (#[trigger] entries[i]).0.is_key()
    &&& forall|i: int, j: int|
        0 <= i < j < entries.len() ==> (#[trigger] entries[i]).0 != (#[trigger] entries[j]).0
}

/// What a map holds under `key` after `value` was stored under `stored`.
pub proof fn lemma_get_after_insert(
    entries: Seq<(ObjectView, ObjectView)>,
    stored: ObjectView,
    value: ObjectView,
    key: ObjectView,
)
    ensures
        map_get(map_insert(entries, stored, value), key) == if key_equal(stored, key) {
            Some(value)
        } else {
            map_get(entries, key)
        },
    decreases entries.len(),
{
    let after = map_insert(entries, stored, value);
    lemma_map_find(entries, stored);
    if entries.len() == 0 {
        assert(after =~= seq![(stored, value)]);
        assert(after.drop_first() =~= Seq::empty());
        assert(map_get(after.drop_first(), key) is None);
        assert(map_get(after, key) == if key_equal(after[0].0, key) {
            Some(after[0].1)
        } else {
            map_get(after.drop_first(), key)
        });
    } else {
        let rest = entries.drop_first();
        lemma_map_find(rest, stored);
        lemma_get_after_insert(rest, stored, value, key);
        if key_equal(entries[0].0, stored) {
            assert(map_find(entries, stored) == 0);
            assert(after =~= entries.update(0, (entries[0].0, value)));
            assert(after.drop_first() =~= rest);
            assert(after[0] == (entries[0].0, value));
        } else {
            let at = map_find(rest, stored);
            assert(map_find(entries, stored) == 1 + at);
            if at < rest.len() {
                assert(after =~= entries.update(at + 1, (entries[at + 1].0, value)));
                assert(after.drop_first() =~= rest.update(at, (rest[at].0, value)));
            } else {
                assert(after =~= entries.push((stored, value)));
                assert(after.drop_first() =~= rest.push((stored, value)));
            }
            assert(after.drop_first() == map_insert(rest, stored, value));
            assert(after[0] == entries[0]);
        }
        assert(after.len() > 0);
        assert(map_get(after, key) == if key_equal(after[0].0, key) {
            Some(after[0].1)
        } else {
            map_get(after.drop_first(), key)
        });
    }
}

/// What the map of the first `upto` entries holds under `key`: the value of
/// the entry with that key, if there is one.
pub proof fn lemma_get_of_map(entries: Seq<(ObjectView, ObjectView)>, upto: int, key: ObjectView)
    requires
        distinct_keys(entries),
        0 <= upto <= entries.len(),
    ensures
        match map_get(map_of(entries, upto), key) {
            Some(value) => exists|i: int|
                0 <= i < upto && (#[trigger] entries[i]).0 == key && entries[i].1 == value,
            None => forall|i: int| 0 <= i < upto ==> (#[trigger] entries[i]).0 != key,
        },
    decreases upto,
{
    if upto > 0 {
        let last = entries[upto - 1];
        lemma_get_of_map(entries, upto - 1, key);
        lemma_get_after_insert(map_of(entries, upto - 1), last.0, last.1, key);
        if key_equal(last.0, key) {
            assert(entries[upto - 1].0 == key && entries[upto - 1].1 == last.1);
        } else {
            assert(last.0.is_key());
            match map_get(map_of(entries, upto - 1), key) {
                Some(value) => {
                    let i = choose|i: int|
                        0 <= i < upto - 1 && (#[trigger] entries[i]).0 == key && entries[i].1
                            == value;
                    assert(0 <= i < upto && entries[i].0 == key && entries[i].1 == value);
                },
                None => {},
            }
        }
    } else {
        assert(map_of(entries, upto) =~= Seq::empty());
    }
}

/// The order in which the entries of a map literal are written does not
/// change what the map holds under any key: two lists of the same entries,
/// each with keys that may be keys and no key twice, make maps with the same
/// lookups.
pub proof fn law_insertion_order(
    first: Seq<(ObjectView, ObjectView)>,
    second: Seq<(ObjectView, ObjectView)>,
    key: ObjectView,
)
    requires
        distinct_keys(first),
        distinct_keys(second),
        forall|entry: (ObjectView, ObjectView)| first.contains(entry) <==> second.contains(entry),
    ensures
        map_get(map_of(first, first.len() as int), key) == map_get(
            map_of(second, second.len() as int),
            key,
        ),
{
    lemma_get_of_map(first, first.len() as int, key);
    lemma_get_of_map(second, second.len() as int, key);
    let one = map_get(map_of(first, first.len() as int), key);
    let two = map_get(map_of(second, second.len() as int), key);
    match one {
        Some(value) => {
            let i = choose|i: int|
                0 <= i < first.len() && (#[trigger] first[i]).0 == key && first[i].1 == value;
            assert(first.contains(first[i]));
            assert(second.contains(first[i]));
            let j = choose|j: int| 0 <= j < second.len() && second[j] == first[i];
            assert(second[j].0 == key);
            match two {
                Some(other) => {
                    let k = choose|k: int|
                        0 <= k < second.len() && (#[trigger] second[k]).0 == key && second[k].1
                            == other;
                    assert(k == j);
                },
                None => {
                    assert(second[j].0 != key);
                },
            }
        },
        None => {
            match two {
                Some(other) => {
                    let k = choose|k: int|
                        0 <= k < second.len() && (#[trigger] second[k]).0 == key && second[k].1
                            == other;
                    assert(second.contains(second[k]));
                    assert(first.contains(second[k]));
                    let i = choose|i: int| 0 <= i < first.len() && first[i] == second[k];
                    assert(first[i].0 != key);
                },
                None => {},
            }
        },
    }
}

} // verus!
