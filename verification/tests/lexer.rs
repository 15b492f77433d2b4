use monkey::lexer::Lexer;
use monkey::token::lookup_keyword;
use monkey::token::Span;
use monkey::token::Token;
use monkey::token::TokenKind;

fn all_tokens(input: &str) -> Vec<Token> {
    let mut lexer = Lexer::new(input);
    let mut tokens = Vec::new();
    while let Some(token) = lexer.next() {
        tokens.push(token);
    }
    tokens
}

#[test]
fn test_next() {
    let input = r#"let five = 5;
let ten = 10;

let add = fn(x, y) {
  x + y;
};

let result = add(five, ten);
!-/*5;
5 < 10 > 5;

if (5 < 10) {
  return true;
} else {
  return false;
}

10 == 10;
10 != 9;
"#;

    let tests = [
        (TokenKind::Let, "let"),
        (TokenKind::Ident, "five"),
        (TokenKind::Assign, "="),
        (TokenKind::Int, "5"),
        (TokenKind::Semicolon, ";"),
        (TokenKind::Let, "let"),
        (TokenKind::Ident, "ten"),
        (TokenKind::Assign, "="),
        (TokenKind::Int, "10"),
        (TokenKind::Semicolon, ";"),
        (TokenKind::Let, "let"),
        (TokenKind::Ident, "add"),
        (TokenKind::Assign, "="),
        (TokenKind::Fn, "fn"),
        (TokenKind::LParen, "("),
        (TokenKind::Ident, "x"),
        (TokenKind::Comma, ","),
        (TokenKind::Ident, "y"),
        (TokenKind::RParen, ")"),
        (TokenKind::LBrace, "{"),
        (TokenKind::Ident, "x"),
        (TokenKind::Plus, "+"),
        (TokenKind::Ident, "y"),
        (TokenKind::Semicolon, ";"),
        (TokenKind::RBrace, "}"),
        (TokenKind::Semicolon, ";"),
        (TokenKind::Let, "let"),
        (TokenKind::Ident, "result"),
        (TokenKind::Assign, "="),
        (TokenKind::Ident, "add"),
        (TokenKind::LParen, "("),
        (TokenKind::Ident, "five"),
        (TokenKind::Comma, ","),
        (TokenKind::Ident, "ten"),
        (TokenKind::RParen, ")"),
        (TokenKind::Semicolon, ";"),
        (TokenKind::Not, "!"),
        (TokenKind::Minus, "-"),
        (TokenKind::Div, "/"),
        (TokenKind::Mul, "*"),
        (TokenKind::Int, "5"),
        (TokenKind::Semicolon, ";"),
        (TokenKind::Int, "5"),
        (TokenKind::LT, "<"),
        (TokenKind::Int, "10"),
        (TokenKind::GT, ">"),
        (TokenKind::Int, "5"),
        (TokenKind::Semicolon, ";"),
        (TokenKind::If, "if"),
        (TokenKind::LParen, "("),
        (TokenKind::Int, "5"),
        (TokenKind::LT, "<"),
        (TokenKind::Int, "10"),
        (TokenKind::RParen, ")"),
        (TokenKind::LBrace, "{"),
        (TokenKind::Return, "return"),
        (TokenKind::True, "true"),
        (TokenKind::Semicolon, ";"),
        (TokenKind::RBrace, "}"),
        (TokenKind::Else, "else"),
        (TokenKind::LBrace, "{"),
        (TokenKind::Return, "return"),
        (TokenKind::False, "false"),
        (TokenKind::Semicolon, ";"),
        (TokenKind::RBrace, "}"),
        (TokenKind::Int, "10"),
        (TokenKind::Eq, "=="),
        (TokenKind::Int, "10"),
        (TokenKind::Semicolon, ";"),
        (TokenKind::Int, "10"),
        (TokenKind::Neq, "!="),
        (TokenKind::Int, "9"),
        (TokenKind::Semicolon, ";"),
    ];

    let tokens = all_tokens(input);
    assert_eq!(tokens.len(), tests.len());
    for (i, ((expected_kind, expected_literal), token)) in
        tests.into_iter().zip(tokens).enumerate()
    {
        println!("{} {:?}", i, &token);
        assert_eq!(expected_kind, token.kind);
        assert_eq!(expected_literal, token.literal);
    }
}

#[test]
fn token_span_is_its_footprint() {
    let input = "let añb = \"hé\" != [1];";
    for token in all_tokens(input) {
        let footprint = &input[token.span.start..token.span.end];
        if token.kind == TokenKind::String {
            assert_eq!(footprint, format!("\"{}\"", token.literal));
        } else {
            assert_eq!(footprint, token.literal);
        }
    }
}

#[test]
fn spans_count_bytes() {
    let tokens = all_tokens("é + x");
    assert_eq!(tokens.len(), 3);
    assert_eq!(tokens[0].kind, TokenKind::Ident);
    assert_eq!(tokens[0].span, Span { start: 0, end: 2 });
    assert_eq!(tokens[1].span, Span { start: 3, end: 4 });
    assert_eq!(tokens[2].span, Span { start: 5, end: 6 });
}

#[test]
fn string_literal_drops_the_quotes() {
    let tokens = all_tokens("\"foo bar\" \"\"");
    assert_eq!(tokens.len(), 2);
    assert_eq!(tokens[0].kind, TokenKind::String);
    assert_eq!(tokens[0].literal, "foo bar");
    assert_eq!(tokens[0].span, Span { start: 0, end: 9 });
    assert_eq!(tokens[1].literal, "");
    assert_eq!(tokens[1].span, Span { start: 10, end: 12 });
}

#[test]
fn unterminated_string_runs_to_the_end() {
    let tokens = all_tokens("\"abc");
    assert_eq!(tokens.len(), 1);
    assert_eq!(tokens[0].kind, TokenKind::String);
    assert_eq!(tokens[0].literal, "ab");
    assert_eq!(tokens[0].span, Span { start: 0, end: 4 });
    let lone = all_tokens("\"");
    assert_eq!(lone.len(), 1);
    assert_eq!(lone[0].literal, "");
    assert_eq!(lone[0].span, Span { start: 0, end: 1 });
}

#[test]
fn illegal_character_is_a_token() {
    let tokens = all_tokens("a @ b");
    assert_eq!(tokens.len(), 3);
    assert_eq!(tokens[1].kind, TokenKind::Illegal('@'));
    assert_eq!(tokens[1].literal, "@");
}

#[test]
fn brackets_colon_and_null() {
    let kinds: Vec<TokenKind> = all_tokens("[ ] : null _x1").into_iter().map(|t| t.kind).collect();
    assert_eq!(
        kinds,
        vec![
            TokenKind::LBracket,
            TokenKind::RBracket,
            TokenKind::Colon,
            TokenKind::Null,
            TokenKind::Ident
        ]
    );
}

#[test]
fn only_ascii_whitespace_is_skipped() {
    assert_eq!(all_tokens(" \t\r\n\x0C").len(), 0);
    let tokens = all_tokens("a\u{00A0}b");
    assert_eq!(tokens.len(), 3);
    assert_eq!(tokens[1].kind, TokenKind::Illegal('\u{00A0}'));
}

#[test]
fn tokens_collects_what_next_hands_out() {
    let input = "let x = fn(a) { a * 2 };";
    let collected = Lexer::new(input).tokens();
    let stepped = all_tokens(input);
    assert_eq!(collected.len(), stepped.len());
    for (a, b) in collected.iter().zip(stepped.iter()) {
        assert_eq!(a.kind, b.kind);
        assert_eq!(a.literal, b.literal);
        assert_eq!(a.span, b.span);
    }
}

#[test]
fn keywords_are_looked_up() {
    assert_eq!(lookup_keyword("fn"), Some(TokenKind::Fn));
    assert_eq!(lookup_keyword("let"), Some(TokenKind::Let));
    assert_eq!(lookup_keyword("true"), Some(TokenKind::True));
    assert_eq!(lookup_keyword("false"), Some(TokenKind::False));
    assert_eq!(lookup_keyword("if"), Some(TokenKind::If));
    assert_eq!(lookup_keyword("else"), Some(TokenKind::Else));
    assert_eq!(lookup_keyword("return"), Some(TokenKind::Return));
    assert_eq!(lookup_keyword("null"), Some(TokenKind::Null));
    assert_eq!(lookup_keyword("lets"), None);
    assert_eq!(lookup_keyword(""), None);
}

#[test]
fn token_constructors() {
    let span = Span { start: 3, end: 4 };
    let plus = Token::special('+', span).unwrap();
    assert_eq!(plus.kind, TokenKind::Plus);
    assert_eq!(plus.literal, "+");
    assert_eq!(plus.span, span);
    assert!(Token::special('a', span).is_none());
    let word = Token::word("let", span).unwrap();
    assert_eq!(word.kind, TokenKind::Let);
    let name = Token::word("foo", span).unwrap();
    assert_eq!(name.kind, TokenKind::Ident);
    assert_eq!(name.literal, "foo");
    assert!(Token::word("+x", span).is_none());
    assert!(Token::word("", span).is_none());
    let bad = Token::illegal('#', span);
    assert_eq!(bad.kind, TokenKind::Illegal('#'));
    assert_eq!(bad.literal, "#");
    assert_eq!(TokenKind::special(';'), Some(TokenKind::Semicolon));
    assert_eq!(TokenKind::word("fn"), Some(TokenKind::Fn));
    assert!(TokenKind::Plus.is_infix());
    assert!(!TokenKind::LParen.is_infix());
    assert_eq!(TokenKind::Eq.to_string(), "`==`");
    assert_eq!(Span { start: 2, end: 5 }.join(Span { start: 4, end: 9 }), Span { start: 2, end: 9 });
    assert_eq!(Span::from(1..3), Span { start: 1, end: 3 });
}

#[test]
fn identifier_characters() {
    assert!(monkey::lexer::starts_identifier('a', true));
    assert!(monkey::lexer::starts_identifier('_', false));
    assert!(!monkey::lexer::starts_identifier('1', false));
    assert!(monkey::lexer::continues_identifier('1', true));
    assert!(monkey::lexer::continues_identifier('_', false));
    assert!(!monkey::lexer::continues_identifier('-', false));
    let tokens = all_tokens("a1_b 1a");
    assert_eq!(tokens.len(), 3);
    assert_eq!(tokens[0].literal, "a1_b");
    assert_eq!(tokens[1].kind, TokenKind::Int);
    assert_eq!(tokens[1].literal, "1");
    assert_eq!(tokens[2].literal, "a");
}
