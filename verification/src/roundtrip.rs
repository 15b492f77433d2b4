use crate::ast::ExpressionView;
use crate::ast::InfixOperator;
use crate::ast::PrefixOperator;
use crate::parser::all_digits;
use crate::parser::BASE;
use crate::parser::binding_of_kind;
use crate::parser::digit_value;
use crate::parser::digits_value;
use crate::parser::infix_operator;
use crate::parser::integer_value;
use crate::parser::parse_expr;
use crate::parser::parse_infix_at;
use crate::parser::parse_operators;
use crate::parser::parse_rule;
use crate::parser::PREFIX;
use crate::parser::Source;
use crate::text::decimal_nat;
use crate::text::digit_char;
use crate::token::PrefixRule;
use crate::token::Span;
use crate::token::TokenKind;
use vstd::prelude::*;

verus! {

/// The decimal numeral of a number is made of digits and stands for that
/// number.
pub proof fn lemma_decimal_is_read_back(n: nat)
    ensures
        decimal_nat(n).len() > 0,
        all_digits(decimal_nat(n)),
        digits_value(decimal_nat(n)) == n,
    decreases n,
{
    let digits = decimal_nat(n);
    if n < 10 {
        assert(digits =~= seq![digit_char(n as int)]);
        assert(digits.drop_last() =~= Seq::<char>::empty());
        assert(digits_value(digits.drop_last()) == 0);
        assert(digit_value(digits.last()) == n);
    } else {
        lemma_decimal_is_read_back(n / 10);
        let shorter = decimal_nat(n / 10);
        assert(digits == shorter.push(digit_char((n % 10) as int)));
        assert(digits.drop_last() =~= shorter);
        assert(digit_value(digits.last()) == n % 10);
        assert forall|i: int| 0 <= i < digits.len() implies '0' <= #[trigger] digits[i] <= '9' by {
            if i < shorter.len() {
                assert(digits[i] == shorter[i]);
            }
        }
    }
}

/// An integer literal that is written as the decimal numeral of a number
/// that fits in 64 bits is read as that number.
pub proof fn law_numerals_are_read_back(value: i64)
    requires
        value >= 0,
    ensures
        integer_value(decimal_nat(value as nat)) == Some(value),
{
    lemma_decimal_is_read_back(value as nat);
}

/// Whether an expression is made of names, of literals of integers that
/// are not negative, of strings, of booleans and `null`, and of operators
/// alone.
pub open spec fn is_operator_expression(expr: ExpressionView) -> bool
    decreases expr,
{
    match expr {
        ExpressionView::Integer { value, .. } => value >= 0,
        ExpressionView::Boolean { .. } => true,
        ExpressionView::Null { .. } => true,
        ExpressionView::Identifier(_) => true,
        ExpressionView::String { .. } => true,
        ExpressionView::Prefix { operand, .. } => is_operator_expression(*operand),
        ExpressionView::Infix { left, right, .. } => is_operator_expression(*left)
            && is_operator_expression(*right),
        _ => false,
    }
}

/// An operator expression without the places where it was read.
pub open spec fn shape(expr: ExpressionView) -> ExpressionView
    decreases expr,
{
    let nowhere = Span { start: 0, end: 0 };
    match expr {
        ExpressionView::Integer { value, .. } => ExpressionView::Integer { span: nowhere, value },
        ExpressionView::Boolean { value, .. } => ExpressionView::Boolean { span: nowhere, value },
        ExpressionView::String { value, .. } => ExpressionView::String { span: nowhere, value },
        ExpressionView::Identifier(name) => ExpressionView::Identifier(
            crate::ast::IdentifierView {
                token: crate::token::TokenView {
                    kind: TokenKind::Ident,
                    literal: name.value,
                    span: nowhere,
                },
                value: name.value,
            },
        ),
        ExpressionView::Prefix { operator, operand, .. } => ExpressionView::Prefix {
            op_span: nowhere,
            operator,
            operand: Box::new(shape(*operand)),
        },
        ExpressionView::Infix { left, operator, right } => ExpressionView::Infix {
            left: Box::new(shape(*left)),
            operator,
            right: Box::new(shape(*right)),
        },
        _ => ExpressionView::Null { span: nowhere },
    }
}

/// A token as far as the parser of operator expressions looks at it: its
/// kind, for an integer literal the number it stands for, and for a name
/// or a string literal its text.
pub struct Word {
    pub kind: TokenKind,
    pub value: i64,
    pub text: Seq<char>,
}

/// The token of a binary operator.
pub open spec fn infix_token(operator: InfixOperator) -> TokenKind {
    match operator {
        InfixOperator::Add => TokenKind::Plus,
        InfixOperator::Sub => TokenKind::Minus,
        InfixOperator::Mul => TokenKind::Mul,
        InfixOperator::Div => TokenKind::Div,
        InfixOperator::Eq => TokenKind::Eq,
        InfixOperator::Neq => TokenKind::Neq,
        InfixOperator::LT => TokenKind::LT,
        InfixOperator::GT => TokenKind::GT,
    }
}

/// The token of a unary operator.
pub open spec fn prefix_token(operator: PrefixOperator) -> TokenKind {
    match operator {
        PrefixOperator::Not => TokenKind::Not,
        PrefixOperator::Neg => TokenKind::Minus,
    }
}

/// The tokens of an operator expression as it is displayed: in parentheses
/// of its own.
pub open spec fn words_of(expr: ExpressionView) -> Seq<Word>
    decreases expr, 1int,
{
    seq![Word { kind: TokenKind::LParen, value: 0, text: Seq::empty() }] + inner_words(expr) + seq![
        Word { kind: TokenKind::RParen, value: 0, text: Seq::empty() },
    ]
}

/// The tokens of an operator expression as it is displayed, without the
/// parentheses around it.
pub open spec fn inner_words(expr: ExpressionView) -> Seq<Word>
    decreases expr, 0int,
{
    match expr {
        ExpressionView::Integer { value, .. } => seq![
            Word { kind: TokenKind::Int, value, text: Seq::empty() },
        ],
        ExpressionView::Identifier(name) => seq![
            Word { kind: TokenKind::Ident, value: 0, text: name.value },
        ],
        ExpressionView::String { value, .. } => seq![
            Word { kind: TokenKind::String, value: 0, text: value },
        ],
        ExpressionView::Boolean { value, .. } => seq![
            Word {
                kind: if value {
                    TokenKind::True
                } else {
                    TokenKind::False
                },
                value: 0,
                text: Seq::empty(),
            },
        ],
        ExpressionView::Prefix { operator, operand, .. } => seq![
            Word { kind: prefix_token(operator), value: 0, text: Seq::empty() },
        ] + words_of(*operand),
        ExpressionView::Infix { left, operator, right } => words_of(*left) + seq![
            Word { kind: infix_token(operator), value: 0, text: Seq::empty() },
        ] + words_of(*right),
        _ => seq![Word { kind: TokenKind::Null, value: 0, text: Seq::empty() }],
    }
}

/// Whether the tokens of `source` from `pos` on are `words`.
pub open spec fn spells(source: Source, pos: int, words: Seq<Word>) -> bool {
    &&& 0 <= pos
    &&& pos + words.len() <= source.tokens.len()
    &&& forall|i: int|
        0 <= i < words.len() ==> (#[trigger] source.tokens[pos + i]).kind == words[i].kind && (
        words[i].kind == TokenKind::Int ==> integer_value(source.tokens[pos + i].literal) == Some(
            words[i].value,
        )) && ((words[i].kind == TokenKind::Ident || words[i].kind == TokenKind::String)
            ==> source.tokens[pos + i].literal == words[i].text)
}

/// Whether no operator that binds more strongly than `level` follows the
/// token at `pos`.
pub open spec fn ends_at(source: Source, pos: int, level: u8) -> bool {
    match source.at(pos + 1) {
        Some(next) => next.kind == TokenKind::Semicolon || binding_of_kind(next.kind) <= level,
        None => true,
    }
}

/// Whether parsing has read `expr` and stands at `end`.
pub open spec fn read_back(
    outcome: crate::parser::Parsed<ExpressionView>,
    expr: ExpressionView,
    end: int,
) -> bool {
    &&& outcome.pos == end
    &&& outcome.result matches Ok(read) && shape(read) == shape(expr)
}

/// A part of what `source` spells is spelled too.
pub proof fn lemma_spells_part(source: Source, pos: int, words: Seq<Word>, from: int, part: Seq<Word>)
    requires
        spells(source, pos, words),
        0 <= from,
        from + part.len() <= words.len(),
        forall|i: int| 0 <= i < part.len() ==> part[i] == words[from + i],
    ensures
        spells(source, pos + from, part),
{
    assert forall|i: int| 0 <= i < part.len() implies (#[trigger] source.tokens[pos + from + i]).kind
        == part[i].kind && (part[i].kind == TokenKind::Int ==> integer_value(
        source.tokens[pos + from + i].literal,
    ) == Some(part[i].value)) && ((part[i].kind == TokenKind::Ident || part[i].kind
        == TokenKind::String) ==> source.tokens[pos + from + i].literal == part[i].text) by {
        assert(source.tokens[pos + (from + i)].kind == words[from + i].kind);
    }
}

/// The words of an operator expression are at least three, and start and
/// end with a parenthesis.
pub proof fn lemma_words(expr: ExpressionView)
    requires
        is_operator_expression(expr),
    ensures
        inner_words(expr).len() >= 1,
        words_of(expr).len() == inner_words(expr).len() + 2,
        words_of(expr)[0].kind == TokenKind::LParen,
        words_of(expr)[words_of(expr).len() - 1].kind == TokenKind::RParen,
        forall|i: int|
            0 <= i < inner_words(expr).len() ==> words_of(expr)[1 + i] == inner_words(expr)[i],
    decreases expr,
{
    match expr {
        ExpressionView::Prefix { operand, .. } => {
            lemma_words(*operand);
        },
        ExpressionView::Infix { left, right, .. } => {
            lemma_words(*left);
            lemma_words(*right);
        },
        _ => {},
    }
}

/// Parsing reads an operator expression back from the tokens that spell
/// it in parentheses, as a grouped expression.
pub proof fn lemma_group_is_read_back(expr: ExpressionView, source: Source, pos: int)
    requires
        is_operator_expression(expr),
        spells(source, pos, words_of(expr)),
    ensures
        read_back(
            parse_rule(source, pos, PrefixRule::Grouped),
            expr,
            pos + words_of(expr).len() - 1,
        ),
    decreases expr, 2int,
{
    lemma_words(expr);
    let words = words_of(expr);
    let end = pos + words.len() - 1;
    assert(source.tokens[pos + 0].kind == words[0].kind);
    assert(source.tokens[pos + (words.len() - 1)].kind == words[words.len() - 1].kind);
    lemma_spells_part(source, pos, words, 1, inner_words(expr));
    assert(closed_after(expr, source, pos + 1));
    lemma_inner_is_read_back(expr, source, pos + 1);
    let inner = parse_expr(source, pos + 1, BASE);
    assert(source.advance(pos) == pos + 1);
    assert(inner.pos == end - 1);
    let close = source.expect(inner.pos, TokenKind::RParen);
    assert(source.advance(end - 1) == end);
    assert(close.pos == end && close.result is Ok);
}

/// Parsing reads an operator expression back from the tokens that spell
/// it in parentheses, where no operator that binds more strongly than
/// `level` follows.
pub proof fn lemma_is_read_back(expr: ExpressionView, source: Source, pos: int, level: u8)
    requires
        is_operator_expression(expr),
        spells(source, pos, words_of(expr)),
        ends_at(source, pos + words_of(expr).len() - 1, level),
    ensures
        read_back(parse_expr(source, pos, level), expr, pos + words_of(expr).len() - 1),
    decreases expr, 3int,
{
    lemma_words(expr);
    let words = words_of(expr);
    let end = pos + words.len() - 1;
    assert(source.tokens[pos + 0].kind == words[0].kind);
    lemma_group_is_read_back(expr, source, pos);
    let left = parse_rule(source, pos, PrefixRule::Grouped);
    assert(source.at(pos)->0.kind.spec_prefix_parse() == Some(PrefixRule::Grouped));
    assert(source.forward(pos, left.pos) == end);
    let after = parse_operators(source, end, left.result->Ok_0, level);
    assert(after.pos == end && after.result == left.result);
}

/// Whether a closing parenthesis follows the tokens that spell `expr`
/// without parentheses from `pos` on.
pub open spec fn closed_after(expr: ExpressionView, source: Source, pos: int) -> bool {
    &&& spells(source, pos, inner_words(expr))
    &&& source.at(pos + inner_words(expr).len()) is Some
    &&& source.at(pos + inner_words(expr).len())->0.kind == TokenKind::RParen
}

/// Parsing reads a literal back.
pub proof fn lemma_literal_is_read_back(expr: ExpressionView, source: Source, pos: int)
    requires
        is_operator_expression(expr),
        expr is Integer || expr is Boolean || expr is Null || expr is Identifier || expr is String,
        closed_after(expr, source, pos),
    ensures
        read_back(parse_expr(source, pos, BASE), expr, pos),
{
    let words = inner_words(expr);
    assert(source.tokens[pos + 0].kind == words[0].kind);
    let rule = source.at(pos)->0.kind.spec_prefix_parse()->0;
    let left = parse_rule(source, pos, rule);
    assert(left.pos == pos && left.result is Ok);
    let after = parse_operators(source, pos, left.result->Ok_0, BASE);
    assert(after.pos == pos && after.result == left.result);
}

/// Parsing reads a unary operator and its operand back, once it reads the
/// operand back.
pub proof fn lemma_prefix_is_read_back(expr: ExpressionView, source: Source, pos: int)
    requires
        is_operator_expression(expr),
        expr is Prefix,
        closed_after(expr, source, pos),
        read_back(
            parse_expr(source, pos + 1, PREFIX),
            *expr->operand,
            pos + words_of(*expr->operand).len(),
        ),
    ensures
        read_back(parse_expr(source, pos, BASE), expr, pos + inner_words(expr).len() - 1),
{
    let words = inner_words(expr);
    let end = pos + words.len() - 1;
    lemma_words(*expr->operand);
    assert(source.tokens[pos + 0].kind == words[0].kind);
    assert(source.at(pos)->0.kind.spec_prefix_parse() == Some(PrefixRule::Prefix));
    assert(source.advance(pos) == pos + 1);
    let left = parse_rule(source, pos, PrefixRule::Prefix);
    assert(left.pos == end && left.result is Ok);
    assert(shape(left.result->Ok_0) == shape(expr));
    let after = parse_operators(source, end, left.result->Ok_0, BASE);
    assert(after.pos == end && after.result == left.result);
}

/// Parsing reads a binary operator and its operands back, once it reads
/// the operands back.
pub proof fn lemma_infix_is_read_back(expr: ExpressionView, source: Source, pos: int)
    requires
        is_operator_expression(expr),
        expr is Infix,
        closed_after(expr, source, pos),
        read_back(
            parse_rule(source, pos, PrefixRule::Grouped),
            *expr->left,
            pos + words_of(*expr->left).len() - 1,
        ),
        read_back(
            parse_expr(
                source,
                pos + words_of(*expr->left).len() + 1,
                binding_of_kind(infix_token(expr->Infix_operator)),
            ),
            *expr->right,
            pos + inner_words(expr).len() - 1,
        ),
    ensures
        read_back(parse_expr(source, pos, BASE), expr, pos + inner_words(expr).len() - 1),
{
    let words = inner_words(expr);
    let end = pos + words.len() - 1;
    let operator = expr->Infix_operator;
    lemma_words(*expr->left);
    lemma_words(*expr->right);
    let first = words_of(*expr->left);
    let at = pos + first.len();
    assert(source.tokens[pos + 0].kind == words[0].kind);
    assert(source.tokens[pos + first.len()].kind == words[first.len() as int].kind);
    assert(source.at(pos)->0.kind == TokenKind::LParen);
    assert(source.at(pos)->0.kind.spec_prefix_parse() == Some(PrefixRule::Grouped));
    let head = parse_rule(source, pos, PrefixRule::Grouped);
    assert(source.forward(pos, head.pos) == at - 1);
    assert(source.at(at)->0.kind == infix_token(operator));
    assert(source.advance(at) == at + 1);
    let joined = parse_infix_at(source, at, head.result->Ok_0);
    assert(joined.pos == end && joined.result is Ok);
    assert(infix_operator(infix_token(operator)) == operator);
    assert(shape(joined.result->Ok_0) == shape(expr));
    assert(source.forward(at, joined.pos) == end);
    let after = parse_operators(source, end, joined.result->Ok_0, BASE);
    assert(after.pos == end && after.result == joined.result);
    let whole = parse_operators(source, at - 1, head.result->Ok_0, BASE);
    assert(whole == after);
}

/// Parsing reads an operator expression back from the tokens that spell
/// it without parentheses, where a closing parenthesis follows.
pub proof fn lemma_inner_is_read_back(expr: ExpressionView, source: Source, pos: int)
    requires
        is_operator_expression(expr),
        closed_after(expr, source, pos),
    ensures
        read_back(parse_expr(source, pos, BASE), expr, pos + inner_words(expr).len() - 1),
    decreases expr, 1int,
{
    let words = inner_words(expr);
    match expr {
        ExpressionView::Prefix { operator, operand, .. } => {
            lemma_words(*operand);
            lemma_spells_part(source, pos, words, 1, words_of(*operand));
            lemma_is_read_back(*operand, source, pos + 1, PREFIX);
            lemma_prefix_is_read_back(expr, source, pos);
        },
        ExpressionView::Infix { left, operator, right } => {
            lemma_words(*left);
            lemma_words(*right);
            let first = words_of(*left);
            let second = words_of(*right);
            let at = pos + first.len();
            lemma_spells_part(source, pos, words, 0, first);
            lemma_spells_part(source, pos, words, first.len() as int + 1, second);
            lemma_group_is_read_back(*left, source, pos);
            lemma_is_read_back(*right, source, at + 1, binding_of_kind(infix_token(operator)));
            lemma_infix_is_read_back(expr, source, pos);
        },
        _ => {
            lemma_literal_is_read_back(expr, source, pos);
        },
    }
}

/// Parsing reads an expression back from its display, as far as operator
/// expressions and tokens go: where the tokens of a source, from `pos` on,
/// are those that the display of an operator expression is made of, and no
/// operator that binds more strongly than `level` follows them, the parser
/// reads that expression, but for the places of its parts, and stands at
/// the last of those tokens.
pub proof fn law_display_is_read_back(expr: ExpressionView, source: Source, pos: int, level: u8)
    requires
        is_operator_expression(expr),
        spells(source, pos, words_of(expr)),
        ends_at(source, pos + words_of(expr).len() - 1, level),
    ensures
        parse_expr(source, pos, level).pos == pos + words_of(expr).len() - 1,
        parse_expr(source, pos, level).result matches Ok(read) && shape(read) == shape(expr),
{
    lemma_is_read_back(expr, source, pos, level);
}

} // verus!
