use crate::ast::BlockStatement;
use crate::ast::BlockView;
use crate::ast::entries_view;
use crate::ast::Expression;
use crate::ast::expressions_view;
use crate::ast::ExpressionView;
use crate::ast::Identifier;
use crate::ast::identifiers_view;
use crate::ast::IdentifierView;
use crate::ast::InfixOperator;
use crate::ast::lemma_block_statements;
use crate::ast::lemma_model_sequences;
use crate::ast::PrefixOperator;
use crate::ast::Program;
use crate::ast::ProgramView;
use crate::ast::Statement;
use crate::ast::statements_view;
use crate::ast::StatementView;
use crate::lexer::Lexer;
use crate::lexer::tokens_of;
use crate::lexer::tokens_view;
use crate::text::byte_len;
use crate::text::chars_of;
use crate::text::lemma_byte_len_is_encoded_len;
use crate::token::PrefixRule;
use crate::token::Span;
use crate::token::Token;
use crate::token::TokenKind;
use crate::token::TokenView;
use std::rc::Rc;
use vstd::prelude::*;

verus! {

/// What the parser was looking for when it met something else.
#[derive(Clone, Copy, Debug, PartialEq, Eq, Structural)]
pub enum Expected {
    Statement,
    Expression,
    Token(TokenKind),
}

/// What is wrong with the source.
#[derive(Clone, Copy, Debug, PartialEq, Eq, Structural)]
pub enum ErrorKind {
    /// Something other than `expected` was found: a token of the kind
    /// `found`, or the end of the input.
    Unexpected { expected: Expected, found: Option<TokenKind> },
    /// An integer literal does not fit in 64 bits.
    ParseInt,
}

/// A syntax error, with the source range it is about.
#[derive(Clone, Copy, Debug, PartialEq, Eq, Structural)]
pub struct Error {
    pub span: Span,
    pub kind: ErrorKind,
}

/// The binding strength of the lowest level, that of a whole expression.
pub const BASE: u8 = 0;

/// The binding strength of `==` and `!=`.
pub const EQUAL: u8 = 1;

/// The binding strength of `<` and `>`.
pub const LESS_GREATER: u8 = 2;

/// The binding strength of `+` and `-`.
pub const SUM: u8 = 3;

/// The binding strength of `*` and `/`.
pub const PRODUCT: u8 = 4;

/// The binding strength of the unary operators.
pub const PREFIX: u8 = 5;

/// The binding strength of a call and of an index.
pub const CALL: u8 = 6;

/// How strongly a token binds the expression on its left when it follows one.
pub open spec fn binding_of_kind(kind: TokenKind) -> u8 {
    match kind {
        TokenKind::Eq | TokenKind::Neq => EQUAL,
        TokenKind::LT | TokenKind::GT => LESS_GREATER,
        TokenKind::Plus | TokenKind::Minus => SUM,
        TokenKind::Mul | TokenKind::Div => PRODUCT,
        TokenKind::LParen | TokenKind::LBracket => CALL,
        _ => BASE,
    }
}

/// How strongly a token binds the expression on its left when it follows one.
pub fn precedence_of(kind: TokenKind) -> (level: u8)
    ensures
        level == binding_of_kind(kind),
{
    match kind {
        TokenKind::Eq | TokenKind::Neq => EQUAL,
        TokenKind::LT | TokenKind::GT => LESS_GREATER,
        TokenKind::Plus | TokenKind::Minus => SUM,
        TokenKind::Mul | TokenKind::Div => PRODUCT,
        TokenKind::LParen | TokenKind::LBracket => CALL,
        _ => BASE,
    }
}

/// The binary operator that a token stands for; `+` for a token that stands
/// for none.
pub open spec fn infix_operator(kind: TokenKind) -> InfixOperator {
    match kind {
        TokenKind::Minus => InfixOperator::Sub,
        TokenKind::Mul => InfixOperator::Mul,
        TokenKind::Div => InfixOperator::Div,
        TokenKind::Eq => InfixOperator::Eq,
        TokenKind::Neq => InfixOperator::Neq,
        TokenKind::LT => InfixOperator::LT,
        TokenKind::GT => InfixOperator::GT,
        _ => InfixOperator::Add,
    }
}

/// The value of a digit.
pub open spec fn digit_value(c: char) -> nat {
    (c as u32 - '0' as u32) as nat
}

/// The number that a sequence of digits stands for in base ten.
pub open spec fn digits_value(digits: Seq<char>) -> nat
    decreases digits.len(),
{
    if digits.len() == 0 {
        0
    } else {
        digits_value(digits.drop_last()) * 10 + digit_value(digits.last())
    }
}

/// Whether all of `text` are ASCII digits.
pub open spec fn all_digits(text: Seq<char>) -> bool {
    forall|i: int| 0 <= i < text.len() ==> '0' <= #[trigger] text[i] <= '9'
}

/// The integer that a literal stands for: it must be made of digits, at
/// least one, and fit in 64 bits.
pub open spec fn integer_value(literal: Seq<char>) -> Option<i64> {
    if literal.len() > 0 && all_digits(literal) && digits_value(literal) <= i64::MAX {
        Some(digits_value(literal) as i64)
    } else {
        None
    }
}

/// The first digits of a numeral stand for no more than the whole.
proof fn lemma_digits_grow(digits: Seq<char>, shorter: int)
    requires
        0 <= shorter <= digits.len(),
    ensures
        digits_value(digits.take(shorter)) <= digits_value(digits),
    decreases digits.len() - shorter,
{
    if shorter < digits.len() {
        lemma_digits_grow(digits.drop_last(), shorter);
        assert(digits.drop_last().take(shorter) =~= digits.take(shorter));
    } else {
        assert(digits.take(shorter) =~= digits);
    }
}

/// The integer that `literal` stands for.
pub fn integer_of(literal: &str) -> (value: Option<i64>)
    ensures
        value == integer_value(literal@),
{
    let chars = chars_of(literal);
    if chars.len() == 0 {
        return None;
    }
    let mut total: i64 = 0;
    let mut i: usize = 0;
    while i < chars.len()
        invariant
            i <= chars.len(),
            chars@ == literal@,
            0 <= total,
            total == digits_value(chars@.take(i as int)),
            all_digits(chars@.take(i as int)),
        decreases chars.len() - i,
    {
        let c = chars[i];
        if !('0' <= c && c <= '9') {
            assert(!all_digits(chars@));
            return None;
        }
        let digit: i64 = (c as u32 - '0' as u32) as i64;
        proof {
            assert(chars@.take(i + 1).drop_last() =~= chars@.take(i as int));
            assert(chars@.take(i + 1).last() == c);
            lemma_digits_grow(chars@, i + 1);
        }
        let scaled = match total.checked_mul(10) {
            Some(scaled) => scaled,
            None => {
                return None;
            },
        };
        total = match scaled.checked_add(digit) {
            Some(sum) => sum,
            None => {
                return None;
            },
        };
        i += 1;
    }
    proof {
        assert(chars@.take(chars@.len() as int) =~= chars@);
    }
    Some(total)
}

/// What the parser reads: the tokens of the source, and the length of the
/// source in bytes.
pub struct Source {
    pub tokens: Seq<TokenView>,
    pub end: usize,
}

/// The outcome of a parsing rule: what it read or why it failed, and the
/// index of the last token that the parser looked at.
pub struct Parsed<T> {
    pub result: Result<T, Error>,
    pub pos: int,
}

impl Source {
    /// The token at `pos`, if there is one.
    pub open spec fn at(self, pos: int) -> Option<TokenView> {
        if 0 <= pos < self.tokens.len() {
            Some(self.tokens[pos])
        } else {
            None
        }
    }

    /// The kind of the token after the one at `pos`, if there is one.
    pub open spec fn peek(self, pos: int) -> Option<TokenKind> {
        match self.at(pos + 1) {
            Some(token) => Some(token.kind),
            None => None,
        }
    }

    /// The index after `pos`; `pos` itself at the end of the tokens.
    pub open spec fn advance(self, pos: int) -> int {
        if pos < self.tokens.len() {
            pos + 1
        } else {
            pos
        }
    }

    /// The position `to`, kept between `from` and the number of tokens.
    pub open spec fn forward(self, from: int, to: int) -> int {
        if to < from {
            from
        } else if to > self.tokens.len() {
            self.tokens.len() as int
        } else {
            to
        }
    }

    /// The error for an expression that the end of the input cuts short.
    pub open spec fn eof(self) -> Error {
        Error {
            span: Span { start: self.end, end: self.end },
            kind: ErrorKind::Unexpected { expected: Expected::Expression, found: None },
        }
    }

    /// Steps to the next token, which must be of the kind `kind`.
    pub open spec fn expect(self, pos: int, kind: TokenKind) -> Parsed<TokenView> {
        let next = self.advance(pos);
        match self.at(next) {
            Some(token) => if token.kind == kind {
                Parsed { result: Ok(token), pos: next }
            } else {
                Parsed {
                    result: Err(
                        Error {
                            span: Span { start: token.span.start, end: self.end },
                            kind: ErrorKind::Unexpected {
                                expected: Expected::Token(kind),
                                found: Some(token.kind),
                            },
                        },
                    ),
                    pos: next,
                }
            },
            None => Parsed {
                result: Err(
                    Error {
                        span: Span { start: self.end, end: self.end },
                        kind: ErrorKind::Unexpected { expected: Expected::Token(kind), found: None },
                    },
                ),
                pos: next,
            },
        }
    }
}

/// A failed outcome.
pub open spec fn refused<T>(error: Error, pos: int) -> Parsed<T> {
    Parsed { result: Err(error), pos }
}

/// The identifier that a token spells.
pub open spec fn identifier_of(token: TokenView) -> IdentifierView {
    IdentifierView { token, value: token.literal }
}

/// The parameters of a function literal from the token after `pos` on,
/// after those in `done`: identifiers with commas between them, up to and
/// with the closing parenthesis.
pub open spec fn parse_parameters_from(
    source: Source,
    pos: int,
    done: Seq<IdentifierView>,
) -> Parsed<Seq<IdentifierView>>
    decreases source.tokens.len() - pos,
{
    if source.peek(pos) == Some(TokenKind::Comma) {
        let name = source.expect(source.advance(pos), TokenKind::Ident);
        match name.result {
            Ok(token) => if name.pos > pos {
                parse_parameters_from(source, name.pos, done.push(identifier_of(token)))
            } else {
                refused(source.eof(), name.pos)
            },
            Err(error) => refused(error, name.pos),
        }
    } else {
        let close = source.expect(pos, TokenKind::RParen);
        match close.result {
            Ok(_) => Parsed { result: Ok(done), pos: close.pos },
            Err(error) => refused(error, close.pos),
        }
    }
}

/// The parameters of a function literal whose opening parenthesis is at `pos`.
pub open spec fn parse_parameters(source: Source, pos: int) -> Parsed<Seq<IdentifierView>> {
    if source.peek(pos) == Some(TokenKind::RParen) {
        Parsed { result: Ok(Seq::empty()), pos: source.advance(pos) }
    } else {
        let first = source.expect(pos, TokenKind::Ident);
        match first.result {
            Ok(token) => parse_parameters_from(source, first.pos, seq![identifier_of(token)]),
            Err(error) => refused(error, first.pos),
        }
    }
}

/// The expression that starts with the token at `pos` and goes on over all
/// operators that bind more strongly than `level`.
pub open spec fn parse_expr(source: Source, pos: int, level: u8) -> Parsed<ExpressionView>
    decreases source.tokens.len() - pos, 2int,
{
    match source.at(pos) {
        None => refused(source.eof(), pos),
        Some(token) => match token.kind.spec_prefix_parse() {
            None => refused(
                Error {
                    span: token.span,
                    kind: ErrorKind::Unexpected {
                        expected: Expected::Expression,
                        found: Some(token.kind),
                    },
                },
                pos,
            ),
            Some(rule) => {
                let left = parse_rule(source, pos, rule);
                match left.result {
                    Err(_) => left,
                    Ok(expr) => parse_operators(source, source.forward(pos, left.pos), expr, level),
                }
            },
        },
    }
}

/// The expression `left`, which ends at `pos`, extended by the operators,
/// calls and indexes that follow it and bind more strongly than `level`.
pub open spec fn parse_operators(
    source: Source,
    pos: int,
    left: ExpressionView,
    level: u8,
) -> Parsed<ExpressionView>
    decreases source.tokens.len() - pos, 0int,
{
    match source.at(pos + 1) {
        Some(next) => if next.kind != TokenKind::Semicolon && level < binding_of_kind(next.kind)
            && pos >= 0 {
            let longer = if next.kind == TokenKind::LParen {
                parse_call_at(source, pos + 1, left)
            } else if next.kind == TokenKind::LBracket {
                parse_index_at(source, pos + 1, left)
            } else {
                parse_infix_at(source, pos + 1, left)
            };
            match longer.result {
                Err(_) => longer,
                Ok(expr) => parse_operators(source, source.forward(pos + 1, longer.pos), expr, level),
            }
        } else {
            Parsed { result: Ok(left), pos }
        },
        None => Parsed { result: Ok(left), pos },
    }
}

/// The binary expression whose left operand is `left` and whose operator is
/// the token at `pos`.
pub open spec fn parse_infix_at(source: Source, pos: int, left: ExpressionView) -> Parsed<
    ExpressionView,
>
    decreases source.tokens.len() - pos, 1int,
{
    match source.at(pos) {
        None => refused(source.eof(), pos),
        Some(token) => {
            let right = parse_expr(source, source.advance(pos), binding_of_kind(token.kind));
            match right.result {
                Err(_) => right,
                Ok(expr) => Parsed {
                    result: Ok(
                        ExpressionView::Infix {
                            left: Box::new(left),
                            operator: infix_operator(token.kind),
                            right: Box::new(expr),
                        },
                    ),
                    pos: right.pos,
                },
            }
        },
    }
}

/// The call of `function` whose opening parenthesis is the token at `pos`.
pub open spec fn parse_call_at(source: Source, pos: int, function: ExpressionView) -> Parsed<
    ExpressionView,
>
    decreases source.tokens.len() - pos, 1int,
{
    match source.at(pos) {
        None => refused(source.eof(), pos),
        Some(open) => {
            let args = parse_list(source, pos, TokenKind::RParen);
            match args.result {
                Err(error) => refused(error, args.pos),
                Ok(arguments) => {
                    let close = source.expect(args.pos, TokenKind::RParen);
                    match close.result {
                        Err(error) => refused(error, close.pos),
                        Ok(token) => Parsed {
                            result: Ok(
                                ExpressionView::Call {
                                    function: Box::new(function),
                                    open_span: open.span,
                                    arguments,
                                    close_span: token.span,
                                },
                            ),
                            pos: close.pos,
                        },
                    }
                },
            }
        },
    }
}

/// The index into `collection` whose opening bracket is the token at `pos`.
pub open spec fn parse_index_at(source: Source, pos: int, collection: ExpressionView) -> Parsed<
    ExpressionView,
>
    decreases source.tokens.len() - pos, 1int,
{
    match source.at(pos) {
        None => refused(source.eof(), pos),
        Some(_) => {
            let index = parse_expr(source, source.advance(pos), BASE);
            match index.result {
                Err(_) => index,
                Ok(expr) => {
                    let close = source.expect(index.pos, TokenKind::RBracket);
                    match close.result {
                        Err(error) => refused(error, close.pos),
                        Ok(token) => Parsed {
                            result: Ok(
                                ExpressionView::Index {
                                    collection: Box::new(collection),
                                    index: Box::new(expr),
                                    close_span: token.span,
                                },
                            ),
                            pos: close.pos,
                        },
                    }
                },
            }
        },
    }
}

/// The expressions between the opening token at `pos` and the closing
/// token of the kind `close`, which is not read: none, or one or more with
/// commas between them.
pub open spec fn parse_list(source: Source, pos: int, close: TokenKind) -> Parsed<
    Seq<ExpressionView>,
>
    decreases source.tokens.len() - pos, 0int,
{
    if source.peek(pos) == Some(close) || pos < 0 || pos >= source.tokens.len() {
        Parsed { result: Ok(Seq::empty()), pos }
    } else {
        let first = parse_expr(source, source.advance(pos), BASE);
        match first.result {
            Err(error) => refused(error, first.pos),
            Ok(expr) => parse_list_from(source, source.forward(pos + 1, first.pos), seq![expr]),
        }
    }
}

/// The expressions of a list after those in `done`, the last of which ends
/// at `pos`.
pub open spec fn parse_list_from(source: Source, pos: int, done: Seq<ExpressionView>) -> Parsed<
    Seq<ExpressionView>,
>
    decreases source.tokens.len() - pos, 0int,
{
    if source.peek(pos) == Some(TokenKind::Comma) && pos >= 0 {
        let next = parse_expr(source, source.advance(pos + 1), BASE);
        match next.result {
            Err(error) => refused(error, next.pos),
            Ok(expr) => parse_list_from(source, source.forward(pos + 1, next.pos), done.push(expr)),
        }
    } else {
        Parsed { result: Ok(done), pos }
    }
}

/// The entries of a map literal after those in `done`: the key of the next
/// one starts after the token at `pos`.
pub open spec fn parse_entries_from(
    source: Source,
    pos: int,
    done: Seq<(ExpressionView, ExpressionView)>,
) -> Parsed<Seq<(ExpressionView, ExpressionView)>>
    decreases source.tokens.len() - pos, 0int,
{
    if pos < 0 || pos >= source.tokens.len() {
        refused(source.eof(), pos)
    } else {
        let key = parse_expr(source, source.advance(pos), BASE);
        match key.result {
            Err(error) => refused(error, key.pos),
            Ok(key_expr) => {
                let colon = source.expect(source.forward(pos + 1, key.pos), TokenKind::Colon);
                match colon.result {
                    Err(error) => refused(error, colon.pos),
                    Ok(_) => {
                        let value = parse_expr(source, source.advance(colon.pos), BASE);
                        match value.result {
                            Err(error) => refused(error, value.pos),
                            Ok(value_expr) => {
                                let end = source.forward(colon.pos, value.pos);
                                let entries = done.push((key_expr, value_expr));
                                if source.peek(end) == Some(TokenKind::Comma) {
                                    parse_entries_from(source, end + 1, entries)
                                } else {
                                    Parsed { result: Ok(entries), pos: end }
                                }
                            },
                        }
                    },
                }
            },
        }
    }
}

/// The statements of a block after those in `done`, up to and with the
/// closing brace. The token at `pos` is the last one read.
pub open spec fn parse_block_from(
    source: Source,
    pos: int,
    open: Span,
    done: Seq<StatementView>,
) -> Parsed<BlockView>
    decreases source.tokens.len() - pos, 0int,
{
    match source.at(pos + 1) {
        Some(next) => if next.kind != TokenKind::RBrace && pos >= 0 {
            let statement = parse_stmt(source, pos + 1);
            match statement.result {
                Err(error) => refused(error, statement.pos),
                Ok(parsed) => parse_block_from(
                    source,
                    source.forward(pos + 1, statement.pos),
                    open,
                    done.push(parsed),
                ),
            }
        } else {
            Parsed {
                result: Ok(BlockView { open, statements: done, close: next.span }),
                pos: source.advance(pos),
            }
        },
        None => {
            let close = source.expect(pos, TokenKind::RBrace);
            match close.result {
                Err(error) => refused(error, close.pos),
                Ok(token) => Parsed {
                    result: Ok(BlockView { open, statements: done, close: token.span }),
                    pos: close.pos,
                },
            }
        },
    }
}

/// The block that follows the token at `pos`: an opening brace, statements,
/// and a closing brace.
pub open spec fn parse_block_after(source: Source, pos: int) -> Parsed<BlockView>
    decreases source.tokens.len() - pos, 1int,
{
    let open = source.expect(pos, TokenKind::LBrace);
    match open.result {
        Err(error) => refused(error, open.pos),
        Ok(token) => if open.pos >= pos {
            parse_block_from(source, open.pos, token.span, Seq::empty())
        } else {
            refused(source.eof(), open.pos)
        },
    }
}

/// The expression of the form `rule` that starts with the token at `pos`.
pub open spec fn parse_rule(source: Source, pos: int, rule: PrefixRule) -> Parsed<ExpressionView>
    decreases source.tokens.len() - pos, 1int,
{
    match source.at(pos) {
        None => refused(source.eof(), pos),
        Some(token) => match rule {
            PrefixRule::Identifier => Parsed {
                result: Ok(ExpressionView::Identifier(identifier_of(token))),
                pos,
            },
            PrefixRule::Integer => match integer_value(token.literal) {
                Some(value) => Parsed {
                    result: Ok(ExpressionView::Integer { span: token.span, value }),
                    pos,
                },
                None => refused(Error { span: token.span, kind: ErrorKind::ParseInt }, pos),
            },
            PrefixRule::String => Parsed {
                result: Ok(ExpressionView::String { span: token.span, value: token.literal }),
                pos,
            },
            PrefixRule::Null => Parsed { result: Ok(ExpressionView::Null { span: token.span }), pos },
            PrefixRule::Boolean => Parsed {
                result: Ok(
                    ExpressionView::Boolean {
                        span: token.span,
                        value: token.kind == TokenKind::True,
                    },
                ),
                pos,
            },
            PrefixRule::Prefix => {
                let operand = parse_expr(source, source.advance(pos), PREFIX);
                match operand.result {
                    Err(_) => operand,
                    Ok(expr) => Parsed {
                        result: Ok(
                            ExpressionView::Prefix {
                                op_span: token.span,
                                operator: if token.kind == TokenKind::Not {
                                    PrefixOperator::Not
                                } else {
                                    PrefixOperator::Neg
                                },
                                operand: Box::new(expr),
                            },
                        ),
                        pos: operand.pos,
                    },
                }
            },
            PrefixRule::Grouped => {
                let inner = parse_expr(source, source.advance(pos), BASE);
                match inner.result {
                    Err(_) => inner,
                    Ok(expr) => {
                        let close = source.expect(inner.pos, TokenKind::RParen);
                        match close.result {
                            Err(error) => refused(error, close.pos),
                            Ok(_) => Parsed { result: Ok(expr), pos: close.pos },
                        }
                    },
                }
            },
            PrefixRule::If => {
                let open = source.expect(pos, TokenKind::LParen);
                match open.result {
                    Err(error) => refused(error, open.pos),
                    Ok(_) => {
                        let condition = parse_expr(source, source.advance(open.pos), BASE);
                        match condition.result {
                            Err(_) => condition,
                            Ok(test) => {
                                let close = source.expect(
                                    source.forward(open.pos, condition.pos),
                                    TokenKind::RParen,
                                );
                                match close.result {
                                    Err(error) => refused(error, close.pos),
                                    Ok(_) => {
                                        let taken = parse_block_after(source, close.pos);
                                        match taken.result {
                                            Err(error) => refused(error, taken.pos),
                                            Ok(consequence) => {
                                                let end = source.forward(close.pos, taken.pos);
                                                if source.peek(end) == Some(TokenKind::Else) {
                                                    let other = parse_block_after(source, end + 1);
                                                    match other.result {
                                                        Err(error) => refused(error, other.pos),
                                                        Ok(alternative) => Parsed {
                                                            result: Ok(
                                                                ExpressionView::If {
                                                                    if_span: token.span,
                                                                    condition: Box::new(test),
                                                                    consequence,
                                                                    alternative: Some(alternative),
                                                                },
                                                            ),
                                                            pos: other.pos,
                                                        },
                                                    }
                                                } else {
                                                    Parsed {
                                                        result: Ok(
                                                            ExpressionView::If {
                                                                if_span: token.span,
                                                                condition: Box::new(test),
                                                                consequence,
                                                                alternative: None,
                                                            },
                                                        ),
                                                        pos: end,
                                                    }
                                                }
                                            },
                                        }
                                    },
                                }
                            },
                        }
                    },
                }
            },
            PrefixRule::Function => {
                let open = source.expect(pos, TokenKind::LParen);
                match open.result {
                    Err(error) => refused(error, open.pos),
                    Ok(_) => {
                        let names = parse_parameters(source, open.pos);
                        match names.result {
                            Err(error) => refused(error, names.pos),
                            Ok(parameters) => {
                                let block = parse_block_after(source, source.forward(open.pos, names.pos));
                                match block.result {
                                    Err(error) => refused(error, block.pos),
                                    Ok(body) => Parsed {
                                        result: Ok(
                                            ExpressionView::Function {
                                                fn_span: token.span,
                                                parameters,
                                                body,
                                            },
                                        ),
                                        pos: block.pos,
                                    },
                                }
                            },
                        }
                    },
                }
            },
            PrefixRule::Array => {
                let items = parse_list(source, pos, TokenKind::RBracket);
                match items.result {
                    Err(error) => refused(error, items.pos),
                    Ok(elements) => {
                        let close = source.expect(items.pos, TokenKind::RBracket);
                        match close.result {
                            Err(error) => refused(error, close.pos),
                            Ok(last) => Parsed {
                                result: Ok(
                                    ExpressionView::Array {
                                        open: token.span,
                                        elements,
                                        close: last.span,
                                    },
                                ),
                                pos: close.pos,
                            },
                        }
                    },
                }
            },
            PrefixRule::Hash => {
                let pairs = if source.peek(pos) == Some(TokenKind::RBrace) {
                    Parsed { result: Ok(Seq::empty()), pos }
                } else {
                    parse_entries_from(source, pos, Seq::empty())
                };
                match pairs.result {
                    Err(error) => refused(error, pairs.pos),
                    Ok(entries) => {
                        let close = source.expect(pairs.pos, TokenKind::RBrace);
                        match close.result {
                            Err(error) => refused(error, close.pos),
                            Ok(last) => Parsed {
                                result: Ok(
                                    ExpressionView::Hash {
                                        open: token.span,
                                        entries,
                                        close: last.span,
                                    },
                                ),
                                pos: close.pos,
                            },
                        }
                    },
                }
            },
        },
    }
}

/// The statement that starts with the token at `pos`, with the semicolon
/// that follows it if there is one.
pub open spec fn parse_stmt(source: Source, pos: int) -> Parsed<StatementView>
    decreases source.tokens.len() - pos, 3int,
{
    match source.at(pos) {
        None => refused(
            Error {
                span: Span { start: source.end, end: source.end },
                kind: ErrorKind::Unexpected { expected: Expected::Statement, found: None },
            },
            pos,
        ),
        Some(token) => {
            let statement: Parsed<StatementView> = if token.kind == TokenKind::Let {
                let name = source.expect(pos, TokenKind::Ident);
                match name.result {
                    Err(error) => refused(error, name.pos),
                    Ok(name_token) => {
                        let assign = source.expect(name.pos, TokenKind::Assign);
                        match assign.result {
                            Err(error) => refused(error, assign.pos),
                            Ok(_) => {
                                let value = parse_expr(source, source.advance(assign.pos), BASE);
                                match value.result {
                                    Err(error) => refused(error, value.pos),
                                    Ok(expr) => Parsed {
                                        result: Ok(
                                            StatementView::Let {
                                                let_span: token.span,
                                                name: identifier_of(name_token),
                                                value: expr,
                                            },
                                        ),
                                        pos: value.pos,
                                    },
                                }
                            },
                        }
                    },
                }
            } else if token.kind == TokenKind::Return {
                let value = parse_expr(source, source.advance(pos), BASE);
                match value.result {
                    Err(error) => refused(error, value.pos),
                    Ok(expr) => Parsed {
                        result: Ok(StatementView::Return { return_span: token.span, value: expr }),
                        pos: value.pos,
                    },
                }
            } else {
                let value = parse_expr(source, pos, BASE);
                match value.result {
                    Err(error) => refused(error, value.pos),
                    Ok(expr) => Parsed {
                        result: Ok(StatementView::Expression(expr)),
                        pos: value.pos,
                    },
                }
            };
            match statement.result {
                Err(_) => statement,
                Ok(_) => if source.peek(statement.pos) == Some(TokenKind::Semicolon) {
                    Parsed { result: statement.result, pos: source.advance(statement.pos) }
                } else {
                    statement
                },
            }
        },
    }
}

/// The index of the first semicolon at or after `pos`, or the number of
/// tokens if there is none.
pub open spec fn skip_to_semicolon(source: Source, pos: int) -> int
    decreases source.tokens.len() - pos,
{
    match source.at(pos) {
        Some(token) => if token.kind != TokenKind::Semicolon {
            skip_to_semicolon(source, pos + 1)
        } else {
            pos
        },
        None => pos,
    }
}

/// The program made of the statements from the token at `pos` on, after
/// those in `statements`; or, if any statement is refused, the errors of
/// all that are, after those in `errors`. After a statement that is refused
/// the parser goes on behind the next semicolon.
pub open spec fn parse_statements(
    source: Source,
    pos: int,
    statements: Seq<StatementView>,
    errors: Seq<Error>,
) -> Result<ProgramView, Seq<Error>>
    decreases source.tokens.len() - pos,
{
    match source.at(pos) {
        None => if errors.len() == 0 {
            Ok(ProgramView { statements })
        } else {
            Err(errors)
        },
        Some(_) => {
            let statement = parse_stmt(source, pos);
            let end = source.forward(pos, statement.pos);
            match statement.result {
                Ok(parsed) => parse_statements(
                    source,
                    source.forward(pos + 1, source.advance(end)),
                    statements.push(parsed),
                    errors,
                ),
                Err(error) => parse_statements(
                    source,
                    source.forward(
                        pos + 1,
                        source.advance(skip_to_semicolon(source, source.advance(end))),
                    ),
                    statements,
                    errors.push(error),
                ),
            }
        },
    }
}

/// What parsing the source text `input` comes to.
pub open spec fn parsed(input: Seq<char>) -> Result<ProgramView, Seq<Error>> {
    parse_statements(
        Source { tokens: tokens_of(input), end: byte_len(input) as usize },
        0,
        Seq::empty(),
        Seq::empty(),
    )
}

/// The value of what a rule hands back.
pub open spec fn viewed<T: View>(outcome: Result<T, Error>) -> Result<T::V, Error> {
    match outcome {
        Ok(value) => Ok(value@),
        Err(error) => Err(error),
    }
}

/// The value of a list of expressions that a rule hands back.
pub open spec fn viewed_list(outcome: Result<Vec<Expression>, Error>) -> Result<
    Seq<ExpressionView>,
    Error,
> {
    match outcome {
        Ok(items) => Ok(expressions_view(items@)),
        Err(error) => Err(error),
    }
}

/// The value of a list of entries that a rule hands back.
pub open spec fn viewed_entries(outcome: Result<Vec<(Expression, Expression)>, Error>) -> Result<
    Seq<(ExpressionView, ExpressionView)>,
    Error,
> {
    match outcome {
        Ok(items) => Ok(entries_view(items@)),
        Err(error) => Err(error),
    }
}

/// The value of a list of identifiers that a rule hands back.
pub open spec fn viewed_names(outcome: Result<Vec<Identifier>, Error>) -> Result<
    Seq<IdentifierView>,
    Error,
> {
    match outcome {
        Ok(items) => Ok(identifiers_view(items@)),
        Err(error) => Err(error),
    }
}

/// The value of what parsing a program hands back.
pub open spec fn viewed_program(outcome: Result<Program, Vec<Error>>) -> Result<
    ProgramView,
    Seq<Error>,
> {
    match outcome {
        Ok(program) => Ok(program@),
        Err(errors) => Err(errors@),
    }
}

/// A parser over the tokens of a source text. It stands at one token, the
/// current one, and can look at the one after it.
#[derive(Debug)]
pub struct Parser {
    pub tokens: Vec<Token>,
    /// Index of the current token; the number of tokens at the end.
    pub pos: usize,
    /// Length of the source text in bytes.
    pub end: usize,
}

/// Whether a rule has left the parser over the same tokens, and not before
/// the place where it stood.
pub open spec fn moved(before: Parser, now: Parser) -> bool {
    &&& now.tokens == before.tokens
    &&& now.end == before.end
    &&& now.pos >= before.pos
    &&& now.pos <= now.tokens.len()
}

/// The binary operator that a token of the kind `kind` stands for.
fn operator_of(kind: TokenKind) -> (operator: InfixOperator)
    ensures
        operator == infix_operator(kind),
{
    match kind {
        TokenKind::Minus => InfixOperator::Sub,
        TokenKind::Mul => InfixOperator::Mul,
        TokenKind::Div => InfixOperator::Div,
        TokenKind::Eq => InfixOperator::Eq,
        TokenKind::Neq => InfixOperator::Neq,
        TokenKind::LT => InfixOperator::LT,
        TokenKind::GT => InfixOperator::GT,
        _ => InfixOperator::Add,
    }
}

/// The identifier that `token` spells.
fn identifier_from(token: Token) -> (name: Identifier)
    ensures
        name@ == identifier_of(token@),
{
    let value = token.literal.clone();
    Identifier { token, value }
}

impl Parser {
    /// What the parser reads.
    pub open spec fn source(&self) -> Source {
        Source { tokens: tokens_view(self.tokens@), end: self.end }
    }

    /// What holds of every parser: it stands at a token or at the end.
    pub open spec fn wf(&self) -> bool {
        self.pos <= self.tokens.len()
    }

    /// A parser at the first token of `input`.
    pub fn new(input: &str) -> (parser: Parser)
        ensures
            parser.wf(),
            parser.pos == 0,
            parser.source() == (Source {
                tokens: tokens_of(input@),
                end: byte_len(input@) as usize,
            }),
    {
        let mut lexer = Lexer::new(input);
        let tokens = lexer.tokens();
        let end: usize = input.as_bytes().len();
        proof {
            lemma_byte_len_is_encoded_len(input@);
        }
        Parser { tokens, pos: 0, end }
    }

    /// The current token, if the parser is not at the end.
    fn current(&self) -> (token: Option<&Token>)
        requires
            self.wf(),
        ensures
            match self.source().at(self.pos as int) {
                Some(found) => token is Some && token->0@ == found && self.pos < self.tokens.len(),
                None => token is None && self.pos == self.tokens.len(),
            },
    {
        if self.pos < self.tokens.len() {
            Some(&self.tokens[self.pos])
        } else {
            None
        }
    }

    /// The kind of the token after the current one, if there is one.
    fn peek_kind(&self) -> (kind: Option<TokenKind>)
        requires
            self.wf(),
        ensures
            kind == self.source().peek(self.pos as int),
            kind is Some ==> self.pos + 1 < self.tokens.len(),
    {
        if self.pos < self.tokens.len() && self.pos + 1 < self.tokens.len() {
            Some(self.tokens[self.pos + 1].kind)
        } else {
            None
        }
    }

    /// Whether the token after the current one is of the kind `kind`.
    fn peek_is(&self, kind: TokenKind) -> (yes: bool)
        requires
            self.wf(),
        ensures
            yes == (self.source().peek(self.pos as int) == Some(kind)),
            yes ==> self.pos + 1 < self.tokens.len(),
    {
        match self.peek_kind() {
            Some(found) => found == kind,
            None => false,
        }
    }

    /// Steps to the next token.
    fn next_token(&mut self)
        requires
            old(self).wf(),
        ensures
            moved(*old(self), *final(self)),
            final(self).pos == old(self).source().advance(old(self).pos as int),
    {
        if self.pos < self.tokens.len() {
            self.pos = self.pos + 1;
        }
    }

    /// The error for an expression that the end of the input cuts short.
    fn unexpected_eof(&self) -> (error: Error)
        ensures
            error == self.source().eof(),
    {
        Error {
            span: Span { start: self.end, end: self.end },
            kind: ErrorKind::Unexpected { expected: Expected::Expression, found: None },
        }
    }

    /// Steps to the next token, which must be of the kind `expected`.
    fn expect_next(&mut self, expected: TokenKind) -> (token: Result<Token, Error>)
        requires
            old(self).wf(),
        ensures
            moved(*old(self), *final(self)),
            ({
                let want = old(self).source().expect(old(self).pos as int, expected);
                final(self).pos == want.pos && viewed(token) == want.result
            }),
    {
        self.next_token();
        match self.current() {
            Some(found) => {
                if found.kind == expected {
                    Ok(found.clone())
                } else {
                    Err(
                        Error {
                            span: Span { start: found.span.start, end: self.end },
                            kind: ErrorKind::Unexpected {
                                expected: Expected::Token(expected),
                                found: Some(found.kind),
                            },
                        },
                    )
                }
            },
            None => Err(
                Error {
                    span: Span { start: self.end, end: self.end },
                    kind: ErrorKind::Unexpected {
                        expected: Expected::Token(expected),
                        found: None,
                    },
                },
            ),
        }
    }

    /// Parses all statements from the current token on.
    fn parse_program(self) -> (program: Result<Program, Vec<Error>>)
        requires
            self.wf(),
        ensures
            viewed_program(program) == parse_statements(
                self.source(),
                self.pos as int,
                Seq::empty(),
                Seq::empty(),
            ),
    {
        let ghost source = self.source();
        let ghost start = self.pos as int;
        let mut parser = self;
        let mut statements: Vec<Statement> = Vec::new();
        let mut errors: Vec<Error> = Vec::new();
        proof {
            assert(statements_view(statements@) =~= Seq::empty());
            assert(errors@ =~= Seq::empty());
        }
        while parser.pos < parser.tokens.len()
            invariant
                parser.wf(),
                parser.source() == source,
                parse_statements(source, start, Seq::empty(), Seq::empty()) == parse_statements(
                    source,
                    parser.pos as int,
                    statements_view(statements@),
                    errors@,
                ),
            decreases parser.tokens.len() - parser.pos,
        {
            let ghost before = statements_view(statements@);
            let ghost at = parser.pos as int;
            match parser.parse_statement() {
                Ok(statement) => {
                    statements.push(statement);
                    assert(statements_view(statements@) =~= before.push(statement@));
                },
                Err(error) => {
                    errors.push(error);
                    parser.next_token();
                    while parser.pos < parser.tokens.len() && parser.tokens[parser.pos].kind
                        != TokenKind::Semicolon
                        invariant
                            parser.wf(),
                            parser.source() == source,
                            at < parser.pos,
                            skip_to_semicolon(source, parser.pos as int) == skip_to_semicolon(
                                source,
                                source.advance(
                                    source.forward(at, parse_stmt(source, at).pos),
                                ),
                            ),
                        decreases parser.tokens.len() - parser.pos,
                    {
                        parser.pos = parser.pos + 1;
                    }
                },
            }
            parser.next_token();
        }
        let program = Program { statements };
        if errors.len() == 0 {
            Ok(program)
        } else {
            Err(errors)
        }
    }

    /// Parses the statement that starts with the current token, with the
    /// semicolon that follows it if there is one.
    fn parse_statement(&mut self) -> (statement: Result<Statement, Error>)
        requires
            old(self).wf(),
        ensures
            moved(*old(self), *final(self)),
            ({
                let want = parse_stmt(old(self).source(), old(self).pos as int);
                final(self).pos == want.pos && viewed(statement) == want.result
            }),
        decreases old(self).tokens.len() - old(self).pos, 6int,
    {
        let kind = match self.current() {
            Some(token) => token.kind,
            None => {
                return Err(
                    Error {
                        span: Span { start: self.end, end: self.end },
                        kind: ErrorKind::Unexpected { expected: Expected::Statement, found: None },
                    },
                );
            },
        };
        let statement = match kind {
            TokenKind::Let => self.parse_let_statement(),
            TokenKind::Return => self.parse_return_statement(),
            _ => self.parse_expression_statement(),
        };
        match statement {
            Ok(parsed) => {
                if self.peek_is(TokenKind::Semicolon) {
                    self.next_token();
                }
                Ok(parsed)
            },
            Err(error) => Err(error),
        }
    }

    /// Parses `let name = value`, without the semicolon.
    fn parse_let_statement(&mut self) -> (statement: Result<Statement, Error>)
        requires
            old(self).wf(),
            old(self).source().at(old(self).pos as int) matches Some(token) && token.kind
                == TokenKind::Let,
        ensures
            moved(*old(self), *final(self)),
            ({
                let source = old(self).source();
                let want = parse_stmt(source, old(self).pos as int);
                &&& viewed(statement) == want.result
                &&& match want.result {
                    Ok(_) => if source.peek(final(self).pos as int) == Some(
                        TokenKind::Semicolon,
                    ) {
                        want.pos == source.advance(final(self).pos as int)
                    } else {
                        want.pos == final(self).pos
                    },
                    Err(_) => want.pos == final(self).pos,
                }
            }),
        decreases old(self).tokens.len() - old(self).pos, 5int,
    {
        let let_span = self.tokens[self.pos].span;
        let name_token = match self.expect_next(TokenKind::Ident) {
            Ok(token) => token,
            Err(error) => {
                return Err(error);
            },
        };
        match self.expect_next(TokenKind::Assign) {
            Ok(_) => {},
            Err(error) => {
                return Err(error);
            },
        }
        self.next_token();
        match self.parse_expression(BASE) {
            Ok(value) => Ok(Statement::Let { let_span, name: identifier_from(name_token), value }),
            Err(error) => Err(error),
        }
    }

    /// Parses `return value`, without the semicolon.
    fn parse_return_statement(&mut self) -> (statement: Result<Statement, Error>)
        requires
            old(self).wf(),
            old(self).source().at(old(self).pos as int) matches Some(token) && token.kind
                == TokenKind::Return,
        ensures
            moved(*old(self), *final(self)),
            ({
                let source = old(self).source();
                let want = parse_stmt(source, old(self).pos as int);
                &&& viewed(statement) == want.result
                &&& match want.result {
                    Ok(_) => if source.peek(final(self).pos as int) == Some(
                        TokenKind::Semicolon,
                    ) {
                        want.pos == source.advance(final(self).pos as int)
                    } else {
                        want.pos == final(self).pos
                    },
                    Err(_) => want.pos == final(self).pos,
                }
            }),
        decreases old(self).tokens.len() - old(self).pos, 5int,
    {
        let return_span = self.tokens[self.pos].span;
        self.next_token();
        match self.parse_expression(BASE) {
            Ok(value) => Ok(Statement::Return { return_span, value }),
            Err(error) => Err(error),
        }
    }

    /// Parses an expression that stands as a statement, without the semicolon.
    fn parse_expression_statement(&mut self) -> (statement: Result<Statement, Error>)
        requires
            old(self).wf(),
            old(self).source().at(old(self).pos as int) matches Some(token) && token.kind
                != TokenKind::Let && token.kind != TokenKind::Return,
        ensures
            moved(*old(self), *final(self)),
            ({
                let source = old(self).source();
                let want = parse_stmt(source, old(self).pos as int);
                &&& viewed(statement) == want.result
                &&& match want.result {
                    Ok(_) => if source.peek(final(self).pos as int) == Some(
                        TokenKind::Semicolon,
                    ) {
                        want.pos == source.advance(final(self).pos as int)
                    } else {
                        want.pos == final(self).pos
                    },
                    Err(_) => want.pos == final(self).pos,
                }
            }),
        decreases old(self).tokens.len() - old(self).pos, 5int,
    {
        match self.parse_expression(BASE) {
            Ok(value) => Ok(Statement::Expression(value)),
            Err(error) => Err(error),
        }
    }

    /// Parses the expression that starts with the current token and goes on
    /// over all operators that bind more strongly than `level`.
    fn parse_expression(&mut self, level: u8) -> (expr: Result<Expression, Error>)
        requires
            old(self).wf(),
        ensures
            moved(*old(self), *final(self)),
            ({
                let want = parse_expr(old(self).source(), old(self).pos as int, level);
                final(self).pos == want.pos && viewed(expr) == want.result
            }),
        decreases old(self).tokens.len() - old(self).pos, 4int,
    {
        let ghost source = self.source();
        let ghost start = self.pos as int;
        let (kind, span) = match self.current() {
            Some(token) => (token.kind, token.span),
            None => {
                return Err(self.unexpected_eof());
            },
        };
        let rule = match kind.prefix_parse() {
            Some(rule) => rule,
            None => {
                return Err(
                    Error {
                        span,
                        kind: ErrorKind::Unexpected {
                            expected: Expected::Expression,
                            found: Some(kind),
                        },
                    },
                );
            },
        };
        let mut left = match self.parse_rule(rule) {
            Ok(expr) => expr,
            Err(error) => {
                return Err(error);
            },
        };
        loop
            invariant
                self.wf(),
                self.source() == source,
                source == old(self).source(),
                start == old(self).pos,
                start <= self.pos,
                self.tokens == old(self).tokens,
                self.end == old(self).end,
                parse_expr(source, start, level) == parse_operators(
                    source,
                    self.pos as int,
                    left@,
                    level,
                ),
            decreases self.tokens.len() - self.pos,
        {
            let next = match self.peek_kind() {
                Some(next) => next,
                None => {
                    return Ok(left);
                },
            };
            if next == TokenKind::Semicolon || !(level < precedence_of(next)) {
                return Ok(left);
            }
            self.next_token();
            let longer = match next {
                TokenKind::LParen => self.parse_call(left),
                TokenKind::LBracket => self.parse_index(left),
                _ => self.parse_infix(left),
            };
            left = match longer {
                Ok(expr) => expr,
                Err(error) => {
                    return Err(error);
                },
            };
        }
    }

    /// Parses the expression of the form `rule` that starts with the
    /// current token.
    fn parse_rule(&mut self, rule: PrefixRule) -> (expr: Result<Expression, Error>)
        requires
            old(self).wf(),
            old(self).pos < old(self).tokens.len(),
        ensures
            moved(*old(self), *final(self)),
            ({
                let want = parse_rule(old(self).source(), old(self).pos as int, rule);
                final(self).pos == want.pos && viewed(expr) == want.result
            }),
        decreases old(self).tokens.len() - old(self).pos, 3int,
    {
        match rule {
            PrefixRule::Identifier => self.parse_identifier(),
            PrefixRule::Integer => self.parse_integer(),
            PrefixRule::String => self.parse_string(),
            PrefixRule::Null => self.parse_null(),
            PrefixRule::Boolean => self.parse_boolean(),
            PrefixRule::Prefix => self.parse_prefix(),
            PrefixRule::Grouped => self.parse_grouped_expression(),
            PrefixRule::If => self.parse_if(),
            PrefixRule::Function => self.parse_function(),
            PrefixRule::Array => self.parse_array(),
            PrefixRule::Hash => self.parse_hash(),
        }
    }

    /// Parses the identifier that the current token spells.
    pub fn parse_identifier(&mut self) -> (expr: Result<Expression, Error>)
        requires
            old(self).wf(),
        ensures
            *final(self) == *old(self),
            ({
                let want = parse_rule(
                    old(self).source(),
                    old(self).pos as int,
                    PrefixRule::Identifier,
                );
                final(self).pos == want.pos && viewed(expr) == want.result
            }),
    {
        match self.current() {
            Some(token) => Ok(Expression::Identifier(identifier_from(token.clone()))),
            None => Err(self.unexpected_eof()),
        }
    }

    /// Parses the integer literal that the current token is.
    pub fn parse_integer(&mut self) -> (expr: Result<Expression, Error>)
        requires
            old(self).wf(),
        ensures
            *final(self) == *old(self),
            ({
                let want = parse_rule(
                    old(self).source(),
                    old(self).pos as int,
                    PrefixRule::Integer,
                );
                final(self).pos == want.pos && viewed(expr) == want.result
            }),
    {
        match self.current() {
            Some(token) => match integer_of(token.literal.as_str()) {
                Some(value) => Ok(Expression::Integer { span: token.span, value }),
                None => Err(Error { span: token.span, kind: ErrorKind::ParseInt }),
            },
            None => Err(self.unexpected_eof()),
        }
    }

    /// Parses the string literal that the current token is.
    pub fn parse_string(&mut self) -> (expr: Result<Expression, Error>)
        requires
            old(self).wf(),
        ensures
            *final(self) == *old(self),
            ({
                let want = parse_rule(
                    old(self).source(),
                    old(self).pos as int,
                    PrefixRule::String,
                );
                final(self).pos == want.pos && viewed(expr) == want.result
            }),
    {
        match self.current() {
            Some(token) => Ok(
                Expression::String { span: token.span, value: token.literal.clone() },
            ),
            None => Err(self.unexpected_eof()),
        }
    }

    /// Parses `null`.
    pub fn parse_null(&mut self) -> (expr: Result<Expression, Error>)
        requires
            old(self).wf(),
        ensures
            *final(self) == *old(self),
            ({
                let want = parse_rule(old(self).source(), old(self).pos as int, PrefixRule::Null);
                final(self).pos == want.pos && viewed(expr) == want.result
            }),
    {
        match self.current() {
            Some(token) => Ok(Expression::Null { span: token.span }),
            None => Err(self.unexpected_eof()),
        }
    }

    /// Parses `true` or `false`.
    pub fn parse_boolean(&mut self) -> (expr: Result<Expression, Error>)
        requires
            old(self).wf(),
        ensures
            *final(self) == *old(self),
            ({
                let want = parse_rule(
                    old(self).source(),
                    old(self).pos as int,
                    PrefixRule::Boolean,
                );
                final(self).pos == want.pos && viewed(expr) == want.result
            }),
    {
        match self.current() {
            Some(token) => Ok(
                Expression::Boolean { span: token.span, value: token.kind == TokenKind::True },
            ),
            None => Err(self.unexpected_eof()),
        }
    }

    /// Parses a unary operator and its operand.
    pub fn parse_prefix(&mut self) -> (expr: Result<Expression, Error>)
        requires
            old(self).wf(),
        ensures
            moved(*old(self), *final(self)),
            ({
                let want = parse_rule(
                    old(self).source(),
                    old(self).pos as int,
                    PrefixRule::Prefix,
                );
                final(self).pos == want.pos && viewed(expr) == want.result
            }),
        decreases old(self).tokens.len() - old(self).pos, 2int,
    {
        let (kind, op_span) = match self.current() {
            Some(token) => (token.kind, token.span),
            None => {
                return Err(self.unexpected_eof());
            },
        };
        self.next_token();
        match self.parse_expression(PREFIX) {
            Ok(operand) => Ok(
                Expression::Prefix {
                    op_span,
                    operator: if kind == TokenKind::Not {
                        PrefixOperator::Not
                    } else {
                        PrefixOperator::Neg
                    },
                    operand: Box::new(operand),
                },
            ),
            Err(error) => Err(error),
        }
    }

    /// Parses an expression in parentheses.
    pub fn parse_grouped_expression(&mut self) -> (expr: Result<Expression, Error>)
        requires
            old(self).wf(),
        ensures
            moved(*old(self), *final(self)),
            ({
                let want = parse_rule(
                    old(self).source(),
                    old(self).pos as int,
                    PrefixRule::Grouped,
                );
                final(self).pos == want.pos && viewed(expr) == want.result
            }),
        decreases old(self).tokens.len() - old(self).pos, 2int,
    {
        if self.current().is_none() {
            return Err(self.unexpected_eof());
        }
        self.next_token();
        let inner = match self.parse_expression(BASE) {
            Ok(expr) => expr,
            Err(error) => {
                return Err(error);
            },
        };
        match self.expect_next(TokenKind::RParen) {
            Ok(_) => Ok(inner),
            Err(error) => Err(error),
        }
    }

    /// Parses `if (condition) { … }` with an optional `else { … }`.
    #[verifier::rlimit(100)]
    #[verifier::spinoff_prover]
    pub fn parse_if(&mut self) -> (expr: Result<Expression, Error>)
        requires
            old(self).wf(),
        ensures
            moved(*old(self), *final(self)),
            ({
                let want = parse_rule(old(self).source(), old(self).pos as int, PrefixRule::If);
                final(self).pos == want.pos && viewed(expr) == want.result
            }),
        decreases old(self).tokens.len() - old(self).pos, 2int,
    {
        let if_span = match self.current() {
            Some(token) => token.span,
            None => {
                return Err(self.unexpected_eof());
            },
        };
        match self.expect_next(TokenKind::LParen) {
            Ok(_) => {},
            Err(error) => {
                return Err(error);
            },
        }
        self.next_token();
        let condition = match self.parse_expression(BASE) {
            Ok(expr) => expr,
            Err(error) => {
                return Err(error);
            },
        };
        match self.expect_next(TokenKind::RParen) {
            Ok(_) => {},
            Err(error) => {
                return Err(error);
            },
        }
        let consequence = match self.parse_block() {
            Ok(block) => block,
            Err(error) => {
                return Err(error);
            },
        };
        let mut alternative: Option<BlockStatement> = None;
        if self.peek_is(TokenKind::Else) {
            self.next_token();
            alternative = match self.parse_block() {
                Ok(block) => Some(block),
                Err(error) => {
                    return Err(error);
                },
            };
        }
        Ok(Expression::If { if_span, condition: Box::new(condition), consequence, alternative })
    }

    /// Parses the block that follows the current token: an opening brace,
    /// statements, and a closing brace.
    fn parse_block(&mut self) -> (block: Result<BlockStatement, Error>)
        requires
            old(self).wf(),
            old(self).pos < old(self).tokens.len(),
        ensures
            moved(*old(self), *final(self)),
            final(self).pos > old(self).pos || block is Err,
            ({
                let want = parse_block_after(old(self).source(), old(self).pos as int);
                final(self).pos == want.pos && viewed(block) == want.result
            }),
        decreases old(self).tokens.len() - old(self).pos, 1int,
    {
        let open = match self.expect_next(TokenKind::LBrace) {
            Ok(token) => token.span,
            Err(error) => {
                return Err(error);
            },
        };
        self.parse_block_statement(open)
    }

    /// Whether a token follows the current one that does not close a block.
    fn block_goes_on(&self) -> (yes: bool)
        requires
            self.wf(),
        ensures
            yes == (self.source().at(self.pos + 1) matches Some(next) && next.kind
                != TokenKind::RBrace),
            yes ==> self.pos + 1 < self.tokens.len(),
    {
        match self.peek_kind() {
            Some(kind) => kind != TokenKind::RBrace,
            None => false,
        }
    }

    /// Parses the statements of a block whose opening brace is the current
    /// token, up to and with the closing brace.
    fn parse_block_statement(&mut self, open: Span) -> (block: Result<BlockStatement, Error>)
        requires
            old(self).wf(),
        ensures
            moved(*old(self), *final(self)),
            ({
                let want = parse_block_from(
                    old(self).source(),
                    old(self).pos as int,
                    open,
                    Seq::empty(),
                );
                final(self).pos == want.pos && viewed(block) == want.result
            }),
        decreases old(self).tokens.len() - old(self).pos, 0int,
    {
        let ghost source = self.source();
        let ghost start = self.pos as int;
        let mut statements: Vec<Statement> = Vec::new();
        proof {
            assert(statements_view(statements@) =~= Seq::empty());
        }
        while self.block_goes_on()
            invariant
                self.wf(),
                self.source() == source,
                source == old(self).source(),
                start == old(self).pos,
                start <= self.pos,
                self.tokens == old(self).tokens,
                self.end == old(self).end,
                parse_block_from(source, start, open, Seq::empty()) == parse_block_from(
                    source,
                    self.pos as int,
                    open,
                    statements_view(statements@),
                ),
            decreases self.tokens.len() - self.pos,
        {
            self.next_token();
            let ghost before = statements_view(statements@);
            match self.parse_statement() {
                Ok(statement) => {
                    statements.push(statement);
                    assert(statements_view(statements@) =~= before.push(statement@));
                },
                Err(error) => {
                    return Err(error);
                },
            }
        }
        match self.expect_next(TokenKind::RBrace) {
            Ok(close) => {
                let block = BlockStatement { open, statements, close: close.span };
                proof {
                    lemma_block_statements(block);
                }
                Ok(block)
            },
            Err(error) => Err(error),
        }
    }

    /// Parses `fn (parameters) { … }`.
    pub fn parse_function(&mut self) -> (expr: Result<Expression, Error>)
        requires
            old(self).wf(),
        ensures
            moved(*old(self), *final(self)),
            ({
                let want = parse_rule(
                    old(self).source(),
                    old(self).pos as int,
                    PrefixRule::Function,
                );
                final(self).pos == want.pos && viewed(expr) == want.result
            }),
        decreases old(self).tokens.len() - old(self).pos, 2int,
    {
        let fn_span = match self.current() {
            Some(token) => token.span,
            None => {
                return Err(self.unexpected_eof());
            },
        };
        match self.expect_next(TokenKind::LParen) {
            Ok(_) => {},
            Err(error) => {
                return Err(error);
            },
        }
        let parameters = match self.parse_function_parameters() {
            Ok(names) => names,
            Err(error) => {
                return Err(error);
            },
        };
        if self.pos >= self.tokens.len() {
            proof {
                let source = old(self).source();
                let open = source.expect(old(self).pos as int, TokenKind::LParen);
                let names = parse_parameters(source, open.pos);
                let at = source.forward(open.pos, names.pos);
                assert(source.expect(at, TokenKind::LBrace).result is Err);
            }
            return Err(
                Error {
                    span: Span { start: self.end, end: self.end },
                    kind: ErrorKind::Unexpected {
                        expected: Expected::Token(TokenKind::LBrace),
                        found: None,
                    },
                },
            );
        }
        match self.parse_block() {
            Ok(body) => Ok(
                Expression::Function {
                    fn_span,
                    parameters: Rc::new(parameters),
                    body: Rc::new(body),
                },
            ),
            Err(error) => Err(error),
        }
    }

    /// Parses the parameters of a function literal whose opening parenthesis
    /// is the current token, up to and with the closing parenthesis.
    fn parse_function_parameters(&mut self) -> (names: Result<Vec<Identifier>, Error>)
        requires
            old(self).wf(),
        ensures
            moved(*old(self), *final(self)),
            ({
                let want = parse_parameters(old(self).source(), old(self).pos as int);
                final(self).pos == want.pos && viewed_names(names) == want.result
            }),
    {
        let ghost source = self.source();
        let ghost start = self.pos as int;
        let mut identifiers: Vec<Identifier> = Vec::new();
        if self.peek_is(TokenKind::RParen) {
            self.next_token();
            assert(identifiers_view(identifiers@) =~= Seq::empty());
            return Ok(identifiers);
        }
        match self.expect_next(TokenKind::Ident) {
            Ok(first) => {
                let name = identifier_from(first);
                identifiers.push(name);
                assert(identifiers_view(identifiers@) =~= seq![name@]);
            },
            Err(error) => {
                return Err(error);
            },
        }
        while self.peek_is(TokenKind::Comma)
            invariant
                self.wf(),
                self.source() == source,
                source == old(self).source(),
                start == old(self).pos,
                start <= self.pos,
                self.tokens == old(self).tokens,
                self.end == old(self).end,
                parse_parameters(source, start) == parse_parameters_from(
                    source,
                    self.pos as int,
                    identifiers_view(identifiers@),
                ),
            decreases self.tokens.len() - self.pos,
        {
            self.next_token();
            let ghost before = identifiers_view(identifiers@);
            match self.expect_next(TokenKind::Ident) {
                Ok(next) => {
                    let name = identifier_from(next);
                    identifiers.push(name);
                    assert(identifiers_view(identifiers@) =~= before.push(name@));
                },
                Err(error) => {
                    return Err(error);
                },
            }
        }
        match self.expect_next(TokenKind::RParen) {
            Ok(_) => Ok(identifiers),
            Err(error) => Err(error),
        }
    }

    /// Parses the expressions between the current token, which opens the
    /// list, and the closing token of the kind `close`, which is not read.
    fn parse_expression_list(&mut self, close: TokenKind) -> (items: Result<Vec<Expression>, Error>)
        requires
            old(self).wf(),
        ensures
            moved(*old(self), *final(self)),
            ({
                let want = parse_list(old(self).source(), old(self).pos as int, close);
                final(self).pos == want.pos && viewed_list(items) == want.result
            }),
        decreases old(self).tokens.len() - old(self).pos, 0int,
    {
        let ghost source = self.source();
        let ghost start = self.pos as int;
        let mut items: Vec<Expression> = Vec::new();
        if self.peek_is(close) || self.pos >= self.tokens.len() {
            assert(expressions_view(items@) =~= Seq::empty());
            return Ok(items);
        }
        self.next_token();
        match self.parse_expression(BASE) {
            Ok(first) => {
                items.push(first);
                assert(expressions_view(items@) =~= seq![first@]);
            },
            Err(error) => {
                return Err(error);
            },
        }
        while self.peek_is(TokenKind::Comma)
            invariant
                self.wf(),
                self.source() == source,
                source == old(self).source(),
                start == old(self).pos,
                start <= self.pos,
                self.tokens == old(self).tokens,
                self.end == old(self).end,
                parse_list(source, start, close) == parse_list_from(
                    source,
                    self.pos as int,
                    expressions_view(items@),
                ),
            decreases self.tokens.len() - self.pos,
        {
            self.next_token();
            self.next_token();
            let ghost before = expressions_view(items@);
            match self.parse_expression(BASE) {
                Ok(next) => {
                    items.push(next);
                    assert(expressions_view(items@) =~= before.push(next@));
                },
                Err(error) => {
                    return Err(error);
                },
            }
        }
        Ok(items)
    }

    /// Parses an array literal.
    pub fn parse_array(&mut self) -> (expr: Result<Expression, Error>)
        requires
            old(self).wf(),
        ensures
            moved(*old(self), *final(self)),
            ({
                let want = parse_rule(old(self).source(), old(self).pos as int, PrefixRule::Array);
                final(self).pos == want.pos && viewed(expr) == want.result
            }),
        decreases old(self).tokens.len() - old(self).pos, 2int,
    {
        let open = match self.current() {
            Some(token) => token.span,
            None => {
                return Err(self.unexpected_eof());
            },
        };
        let elements = match self.parse_expression_list(TokenKind::RBracket) {
            Ok(items) => items,
            Err(error) => {
                return Err(error);
            },
        };
        match self.expect_next(TokenKind::RBracket) {
            Ok(close) => {
                let expr = Expression::Array { open, elements, close: close.span };
                proof {
                    lemma_model_sequences(expr);
                }
                Ok(expr)
            },
            Err(error) => Err(error),
        }
    }

    /// Parses the entries of a map literal, the first of which starts after
    /// the current token.
    fn parse_entries(&mut self) -> (entries: Result<Vec<(Expression, Expression)>, Error>)
        requires
            old(self).wf(),
        ensures
            moved(*old(self), *final(self)),
            ({
                let want = parse_entries_from(
                    old(self).source(),
                    old(self).pos as int,
                    Seq::empty(),
                );
                final(self).pos == want.pos && viewed_entries(entries) == want.result
            }),
        decreases old(self).tokens.len() - old(self).pos, 1int,
    {
        let ghost source = self.source();
        let ghost start = self.pos as int;
        let mut entries: Vec<(Expression, Expression)> = Vec::new();
        proof {
            assert(entries_view(entries@) =~= Seq::empty());
        }
        loop
            invariant
                self.wf(),
                self.source() == source,
                source == old(self).source(),
                start == old(self).pos,
                start <= self.pos,
                self.tokens == old(self).tokens,
                self.end == old(self).end,
                parse_entries_from(source, start, Seq::empty()) == parse_entries_from(
                    source,
                    self.pos as int,
                    entries_view(entries@),
                ),
            decreases self.tokens.len() - self.pos,
        {
            if self.pos >= self.tokens.len() {
                return Err(self.unexpected_eof());
            }
            self.next_token();
            let key = match self.parse_expression(BASE) {
                Ok(expr) => expr,
                Err(error) => {
                    return Err(error);
                },
            };
            match self.expect_next(TokenKind::Colon) {
                Ok(_) => {},
                Err(error) => {
                    return Err(error);
                },
            }
            self.next_token();
            let value = match self.parse_expression(BASE) {
                Ok(expr) => expr,
                Err(error) => {
                    return Err(error);
                },
            };
            let ghost before = entries_view(entries@);
            entries.push((key, value));
            proof {
                assert(entries_view(entries@) =~= before.push((key@, value@)));
            }
            if self.peek_is(TokenKind::Comma) {
                self.next_token();
            } else {
                return Ok(entries);
            }
        }
    }

    /// Parses a map literal.
    pub fn parse_hash(&mut self) -> (expr: Result<Expression, Error>)
        requires
            old(self).wf(),
        ensures
            moved(*old(self), *final(self)),
            ({
                let want = parse_rule(old(self).source(), old(self).pos as int, PrefixRule::Hash);
                final(self).pos == want.pos && viewed(expr) == want.result
            }),
        decreases old(self).tokens.len() - old(self).pos, 2int,
    {
        let open = match self.current() {
            Some(token) => token.span,
            None => {
                return Err(self.unexpected_eof());
            },
        };
        let entries = if self.peek_is(TokenKind::RBrace) {
            let none: Vec<(Expression, Expression)> = Vec::new();
            assert(entries_view(none@) =~= Seq::empty());
            none
        } else {
            match self.parse_entries() {
                Ok(entries) => entries,
                Err(error) => {
                    return Err(error);
                },
            }
        };
        match self.expect_next(TokenKind::RBrace) {
            Ok(close) => {
                let expr = Expression::Hash { open, entries, close: close.span };
                proof {
                    lemma_model_sequences(expr);
                }
                Ok(expr)
            },
            Err(error) => Err(error),
        }
    }

    /// Parses the binary expression whose left operand is `left` and whose
    /// operator is the current token.
    fn parse_infix(&mut self, left: Expression) -> (expr: Result<Expression, Error>)
        requires
            old(self).wf(),
        ensures
            moved(*old(self), *final(self)),
            ({
                let want = parse_infix_at(old(self).source(), old(self).pos as int, left@);
                final(self).pos == want.pos && viewed(expr) == want.result
            }),
        decreases old(self).tokens.len() - old(self).pos, 2int,
    {
        let kind = match self.current() {
            Some(token) => token.kind,
            None => {
                return Err(self.unexpected_eof());
            },
        };
        self.next_token();
        match self.parse_expression(precedence_of(kind)) {
            Ok(right) => Ok(
                Expression::Infix {
                    left: Box::new(left),
                    operator: operator_of(kind),
                    right: Box::new(right),
                },
            ),
            Err(error) => Err(error),
        }
    }

    /// Parses the call of `function` whose opening parenthesis is the
    /// current token.
    fn parse_call(&mut self, function: Expression) -> (expr: Result<Expression, Error>)
        requires
            old(self).wf(),
        ensures
            moved(*old(self), *final(self)),
            ({
                let want = parse_call_at(old(self).source(), old(self).pos as int, function@);
                final(self).pos == want.pos && viewed(expr) == want.result
            }),
        decreases old(self).tokens.len() - old(self).pos, 2int,
    {
        let open_span = match self.current() {
            Some(token) => token.span,
            None => {
                return Err(self.unexpected_eof());
            },
        };
        let arguments = match self.parse_call_arguments() {
            Ok(items) => items,
            Err(error) => {
                return Err(error);
            },
        };
        match self.expect_next(TokenKind::RParen) {
            Ok(close) => {
                let expr = Expression::Call {
                    function: Box::new(function),
                    open_span,
                    arguments,
                    close_span: close.span,
                };
                proof {
                    lemma_model_sequences(expr);
                }
                Ok(expr)
            },
            Err(error) => Err(error),
        }
    }

    /// Parses the arguments of a call whose opening parenthesis is the
    /// current token. The closing parenthesis is not read.
    fn parse_call_arguments(&mut self) -> (items: Result<Vec<Expression>, Error>)
        requires
            old(self).wf(),
        ensures
            moved(*old(self), *final(self)),
            ({
                let want = parse_list(
                    old(self).source(),
                    old(self).pos as int,
                    TokenKind::RParen,
                );
                final(self).pos == want.pos && viewed_list(items) == want.result
            }),
        decreases old(self).tokens.len() - old(self).pos, 1int,
    {
        self.parse_expression_list(TokenKind::RParen)
    }

    /// Parses the index into `collection` whose opening bracket is the
    /// current token.
    fn parse_index(&mut self, collection: Expression) -> (expr: Result<Expression, Error>)
        requires
            old(self).wf(),
        ensures
            moved(*old(self), *final(self)),
            ({
                let want = parse_index_at(old(self).source(), old(self).pos as int, collection@);
                final(self).pos == want.pos && viewed(expr) == want.result
            }),
        decreases old(self).tokens.len() - old(self).pos, 2int,
    {
        if self.current().is_none() {
            return Err(self.unexpected_eof());
        }
        self.next_token();
        let index = match self.parse_expression(BASE) {
            Ok(expr) => expr,
            Err(error) => {
                return Err(error);
            },
        };
        match self.expect_next(TokenKind::RBracket) {
            Ok(close) => Ok(
                Expression::Index {
                    collection: Box::new(collection),
                    index: Box::new(index),
                    close_span: close.span,
                },
            ),
            Err(error) => Err(error),
        }
    }
}

/// Parses the source text `input`.
///
/// Returns the program, or, if any statement is refused, the errors of all
/// statements that are: after a statement that is refused the parser goes on
/// behind the next semicolon.
pub fn parse(input: &str) -> (program: Result<Program, Vec<Error>>)
    ensures
        viewed_program(program) == parsed(input@),
{
    Parser::new(input).parse_program()
}

} // verus!
