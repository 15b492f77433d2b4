use crate::text::chars_of;
use crate::text::string_of;
use std::ops::Range;
use vstd::prelude::*;
use vstd::std_specs::convert::FromSpecImpl;

verus! {

/// A half-open range `start..end` of byte offsets into the source text.
#[derive(Clone, Copy, Debug, Default, PartialEq, Eq, Structural)]
pub struct Span {
    pub start: usize,
    pub end: usize,
}

/// The smaller of two offsets.
pub open spec fn spec_min(a: usize, b: usize) -> usize {
    if a <= b {
        a
    } else {
        b
    }
}

/// The larger of two offsets.
pub open spec fn spec_max(a: usize, b: usize) -> usize {
    if a >= b {
        a
    } else {
        b
    }
}

impl Span {
    /// The smallest span that covers both operands.
    pub open spec fn spec_join(self, other: Span) -> Span {
        Span { start: spec_min(self.start, other.start), end: spec_max(self.end, other.end) }
    }

    /// The smallest span that covers both `self` and `other`.
    pub fn join(self, other: Span) -> (joined: Span)
        ensures
            joined == self.spec_join(other),
    {
        Span {
            start: if self.start <= other.start {
                self.start
            } else {
                other.start
            },
            end: if self.end >= other.end {
                self.end
            } else {
                other.end
            },
        }
    }
}

impl From<Range<usize>> for Span {
    fn from(value: Range<usize>) -> (span: Span) {
        Span { start: value.start, end: value.end }
    }
}

impl FromSpecImpl<Range<usize>> for Span {
    open spec fn obeys_from_spec() -> bool {
        true
    }

    open spec fn from_spec(value: Range<usize>) -> Span {
        Span { start: value.start, end: value.end }
    }
}

/// The closed set of lexical categories.
#[derive(Clone, Copy, Debug, PartialEq, Eq, Structural)]
pub enum TokenKind {
    Illegal(char),
    Ident,
    Int,
    String,
    Assign,
    Plus,
    Minus,
    Not,
    Mul,
    Div,
    LT,
    GT,
    Eq,
    Neq,
    Comma,
    Semicolon,
    Colon,
    LParen,
    RParen,
    LBrace,
    RBrace,
    LBracket,
    RBracket,
    Fn,
    Let,
    True,
    False,
    If,
    Else,
    Return,
    Null,
}

/// Which prefix rule of the expression grammar a token kind starts.
#[derive(Clone, Copy, Debug, PartialEq, Eq, Structural)]
pub enum PrefixRule {
    Identifier,
    Integer,
    String,
    Null,
    Prefix,
    Boolean,
    Grouped,
    If,
    Function,
    Array,
    Hash,
}

/// The token kind of a one-character operator or punctuation mark.
pub open spec fn special_kind(c: char) -> Option<TokenKind> {
    if c == '=' {
        Some(TokenKind::Assign)
    } else if c == '+' {
        Some(TokenKind::Plus)
    } else if c == '-' {
        Some(TokenKind::Minus)
    } else if c == '!' {
        Some(TokenKind::Not)
    } else if c == '*' {
        Some(TokenKind::Mul)
    } else if c == '/' {
        Some(TokenKind::Div)
    } else if c == '<' {
        Some(TokenKind::LT)
    } else if c == '>' {
        Some(TokenKind::GT)
    } else if c == ',' {
        Some(TokenKind::Comma)
    } else if c == ';' {
        Some(TokenKind::Semicolon)
    } else if c == ':' {
        Some(TokenKind::Colon)
    } else if c == '(' {
        Some(TokenKind::LParen)
    } else if c == ')' {
        Some(TokenKind::RParen)
    } else if c == '{' {
        Some(TokenKind::LBrace)
    } else if c == '}' {
        Some(TokenKind::RBrace)
    } else if c == '[' {
        Some(TokenKind::LBracket)
    } else if c == ']' {
        Some(TokenKind::RBracket)
    } else {
        None
    }
}

/// The keyword that `word` spells, if any.
pub open spec fn keyword_kind(word: Seq<char>) -> Option<TokenKind> {
    if word == seq!['f', 'n'] {
        Some(TokenKind::Fn)
    } else if word == seq!['l', 'e', 't'] {
        Some(TokenKind::Let)
    } else if word == seq!['t', 'r', 'u', 'e'] {
        Some(TokenKind::True)
    } else if word == seq!['f', 'a', 'l', 's', 'e'] {
        Some(TokenKind::False)
    } else if word == seq!['i', 'f'] {
        Some(TokenKind::If)
    } else if word == seq!['e', 'l', 's', 'e'] {
        Some(TokenKind::Else)
    } else if word == seq!['r', 'e', 't', 'u', 'r', 'n'] {
        Some(TokenKind::Return)
    } else if word == seq!['n', 'u', 'l', 'l'] {
        Some(TokenKind::Null)
    } else {
        None
    }
}

/// The kind of a word: nothing for an empty word or one that starts with an
/// operator or punctuation mark, else its keyword, else an identifier.
pub open spec fn word_kind(word: Seq<char>) -> Option<TokenKind> {
    if word.len() == 0 || special_kind(word[0]) is Some {
        None
    } else if keyword_kind(word) is Some {
        keyword_kind(word)
    } else {
        Some(TokenKind::Ident)
    }
}

/// The keyword spelled by the characters `word`, if any.
pub fn keyword_of(word: &[char]) -> (kind: Option<TokenKind>)
    ensures
        kind == keyword_kind(word@),
{
    let n: usize = word.len();
    if n == 2 && word[0] == 'f' && word[1] == 'n' {
        assert(word@ =~= seq!['f', 'n']);
        Some(TokenKind::Fn)
    } else if n == 3 && word[0] == 'l' && word[1] == 'e' && word[2] == 't' {
        assert(word@ =~= seq!['l', 'e', 't']);
        Some(TokenKind::Let)
    } else if n == 4 && word[0] == 't' && word[1] == 'r' && word[2] == 'u' && word[3] == 'e' {
        assert(word@ =~= seq!['t', 'r', 'u', 'e']);
        Some(TokenKind::True)
    } else if n == 5 && word[0] == 'f' && word[1] == 'a' && word[2] == 'l' && word[3] == 's'
        && word[4] == 'e' {
        assert(word@ =~= seq!['f', 'a', 'l', 's', 'e']);
        Some(TokenKind::False)
    } else if n == 2 && word[0] == 'i' && word[1] == 'f' {
        assert(word@ =~= seq!['i', 'f']);
        Some(TokenKind::If)
    } else if n == 4 && word[0] == 'e' && word[1] == 'l' && word[2] == 's' && word[3] == 'e' {
        assert(word@ =~= seq!['e', 'l', 's', 'e']);
        Some(TokenKind::Else)
    } else if n == 6 && word[0] == 'r' && word[1] == 'e' && word[2] == 't' && word[3] == 'u'
        && word[4] == 'r' && word[5] == 'n' {
        assert(word@ =~= seq!['r', 'e', 't', 'u', 'r', 'n']);
        Some(TokenKind::Return)
    } else if n == 4 && word[0] == 'n' && word[1] == 'u' && word[2] == 'l' && word[3] == 'l' {
        assert(word@ =~= seq!['n', 'u', 'l', 'l']);
        Some(TokenKind::Null)
    } else {
        proof {
            let w = word@;
            assert(seq!['f', 'n'].len() == 2 && seq!['f', 'n'][0] == 'f' && seq!['f', 'n'][1]
                == 'n');
            assert(seq!['i', 'f'].len() == 2 && seq!['i', 'f'][0] == 'i' && seq!['i', 'f'][1]
                == 'f');
            let l3 = seq!['l', 'e', 't'];
            assert(l3.len() == 3 && l3[0] == 'l' && l3[1] == 'e' && l3[2] == 't');
            let t4 = seq!['t', 'r', 'u', 'e'];
            assert(t4.len() == 4 && t4[0] == 't' && t4[1] == 'r' && t4[2] == 'u' && t4[3] == 'e');
            let e4 = seq!['e', 'l', 's', 'e'];
            assert(e4.len() == 4 && e4[0] == 'e' && e4[1] == 'l' && e4[2] == 's' && e4[3] == 'e');
            let n4 = seq!['n', 'u', 'l', 'l'];
            assert(n4.len() == 4 && n4[0] == 'n' && n4[1] == 'u' && n4[2] == 'l' && n4[3] == 'l');
            let f5 = seq!['f', 'a', 'l', 's', 'e'];
            assert(f5.len() == 5 && f5[0] == 'f' && f5[1] == 'a' && f5[2] == 'l' && f5[3] == 's'
                && f5[4] == 'e');
            let r6 = seq!['r', 'e', 't', 'u', 'r', 'n'];
            assert(r6.len() == 6 && r6[0] == 'r' && r6[1] == 'e' && r6[2] == 't' && r6[3] == 'u'
                && r6[4] == 'r' && r6[5] == 'n');
        }
        None
    }
}

/// The keyword that `input` spells, if any.
pub fn lookup_keyword(input: &str) -> (kind: Option<TokenKind>)
    ensures
        kind == keyword_kind(input@),
{
    let chars = chars_of(input);
    keyword_of(chars.as_slice())
}

impl TokenKind {
    /// The kind of the one-character token `literal`, if it is one.
    pub fn special(literal: char) -> (kind: Option<TokenKind>)
        ensures
            kind == special_kind(literal),
    {
        if literal == '=' {
            Some(TokenKind::Assign)
        } else if literal == '+' {
            Some(TokenKind::Plus)
        } else if literal == '-' {
            Some(TokenKind::Minus)
        } else if literal == '!' {
            Some(TokenKind::Not)
        } else if literal == '*' {
            Some(TokenKind::Mul)
        } else if literal == '/' {
            Some(TokenKind::Div)
        } else if literal == '<' {
            Some(TokenKind::LT)
        } else if literal == '>' {
            Some(TokenKind::GT)
        } else if literal == ',' {
            Some(TokenKind::Comma)
        } else if literal == ';' {
            Some(TokenKind::Semicolon)
        } else if literal == ':' {
            Some(TokenKind::Colon)
        } else if literal == '(' {
            Some(TokenKind::LParen)
        } else if literal == ')' {
            Some(TokenKind::RParen)
        } else if literal == '{' {
            Some(TokenKind::LBrace)
        } else if literal == '}' {
            Some(TokenKind::RBrace)
        } else if literal == '[' {
            Some(TokenKind::LBracket)
        } else if literal == ']' {
            Some(TokenKind::RBracket)
        } else {
            None
        }
    }

    /// The kind of the word `literal`: a keyword or an identifier, unless the
    /// word is empty or starts with an operator or punctuation mark.
    pub fn word(literal: &str) -> (kind: Option<TokenKind>)
        ensures
            kind == word_kind(literal@),
    {
        let chars = chars_of(literal);
        if chars.len() == 0 {
            return None;
        }
        if TokenKind::special(chars[0]).is_some() {
            return None;
        }
        match keyword_of(chars.as_slice()) {
            Some(kind) => Some(kind),
            None => Some(TokenKind::Ident),
        }
    }

    /// The prefix rule that a token of this kind starts.
    pub open spec fn spec_prefix_parse(self) -> Option<PrefixRule> {
        match self {
            TokenKind::Ident => Some(PrefixRule::Identifier),
            TokenKind::Int => Some(PrefixRule::Integer),
            TokenKind::String => Some(PrefixRule::String),
            TokenKind::Null => Some(PrefixRule::Null),
            TokenKind::Not | TokenKind::Minus => Some(PrefixRule::Prefix),
            TokenKind::True | TokenKind::False => Some(PrefixRule::Boolean),
            TokenKind::LParen => Some(PrefixRule::Grouped),
            TokenKind::If => Some(PrefixRule::If),
            TokenKind::Fn => Some(PrefixRule::Function),
            TokenKind::LBracket => Some(PrefixRule::Array),
            TokenKind::LBrace => Some(PrefixRule::Hash),
            _ => None,
        }
    }

    /// The prefix rule that a token of this kind starts; `None` where no
    /// expression can start with it.
    #[verifier::when_used_as_spec(spec_prefix_parse)]
    pub fn prefix_parse(self) -> (rule: Option<PrefixRule>)
        ensures
            rule == self.spec_prefix_parse(),
    {
        match self {
            TokenKind::Ident => Some(PrefixRule::Identifier),
            TokenKind::Int => Some(PrefixRule::Integer),
            TokenKind::String => Some(PrefixRule::String),
            TokenKind::Null => Some(PrefixRule::Null),
            TokenKind::Not | TokenKind::Minus => Some(PrefixRule::Prefix),
            TokenKind::True | TokenKind::False => Some(PrefixRule::Boolean),
            TokenKind::LParen => Some(PrefixRule::Grouped),
            TokenKind::If => Some(PrefixRule::If),
            TokenKind::Fn => Some(PrefixRule::Function),
            TokenKind::LBracket => Some(PrefixRule::Array),
            TokenKind::LBrace => Some(PrefixRule::Hash),
            _ => None,
        }
    }

    /// Whether the kind is one of the binary operators `+ - * / == != < >`.
    pub open spec fn spec_is_infix(self) -> bool {
        self == TokenKind::Plus || self == TokenKind::Minus || self == TokenKind::Mul || self
            == TokenKind::Div || self == TokenKind::Eq || self == TokenKind::Neq || self
            == TokenKind::LT || self == TokenKind::GT
    }

    /// Whether the kind is one of the binary operators `+ - * / == != < >`.
    #[verifier::when_used_as_spec(spec_is_infix)]
    pub fn is_infix(self) -> (infix: bool)
        ensures
            infix == self.spec_is_infix(),
    {
        match self {
            TokenKind::Plus
            | TokenKind::Minus
            | TokenKind::Mul
            | TokenKind::Div
            | TokenKind::Eq
            | TokenKind::Neq
            | TokenKind::LT
            | TokenKind::GT => true,
            _ => false,
        }
    }

    /// The name under which diagnostics mention the kind.
    pub open spec fn spec_name(self) -> &'static str {
        match self {
            TokenKind::Illegal(_) => "Illegal token",
            TokenKind::Ident => "Identifier",
            TokenKind::Int => "Integer literal",
            TokenKind::String => "String literal",
            TokenKind::Assign => "`=`",
            TokenKind::Plus => "`+`",
            TokenKind::Minus => "`-`",
            TokenKind::Not => "`!`",
            TokenKind::Mul => "`*`",
            TokenKind::Div => "`/`",
            TokenKind::LT => "`<`",
            TokenKind::GT => "`>`",
            TokenKind::Eq => "`==`",
            TokenKind::Neq => "`!=`",
            TokenKind::Comma => "`,`",
            TokenKind::Semicolon => "`;`",
            TokenKind::Colon => "`:`",
            TokenKind::LParen => "`(`",
            TokenKind::RParen => "`)`",
            TokenKind::LBrace => "`{`",
            TokenKind::RBrace => "`}`",
            TokenKind::LBracket => "`[`",
            TokenKind::RBracket => "`]`",
            TokenKind::Fn => "`fn`",
            TokenKind::Let => "`let`",
            TokenKind::True => "`true`",
            TokenKind::False => "`false`",
            TokenKind::If => "`if`",
            TokenKind::Else => "`else`",
            TokenKind::Return => "`return`",
            TokenKind::Null => "`null`",
        }
    }

    /// The name under which diagnostics mention the kind.
    pub fn name(self) -> (name: &'static str)
        ensures
            name@ == self.spec_name()@,
    {
        match self {
            TokenKind::Illegal(_) => "Illegal token",
            TokenKind::Ident => "Identifier",
            TokenKind::Int => "Integer literal",
            TokenKind::String => "String literal",
            TokenKind::Assign => "`=`",
            TokenKind::Plus => "`+`",
            TokenKind::Minus => "`-`",
            TokenKind::Not => "`!`",
            TokenKind::Mul => "`*`",
            TokenKind::Div => "`/`",
            TokenKind::LT => "`<`",
            TokenKind::GT => "`>`",
            TokenKind::Eq => "`==`",
            TokenKind::Neq => "`!=`",
            TokenKind::Comma => "`,`",
            TokenKind::Semicolon => "`;`",
            TokenKind::Colon => "`:`",
            TokenKind::LParen => "`(`",
            TokenKind::RParen => "`)`",
            TokenKind::LBrace => "`{`",
            TokenKind::RBrace => "`}`",
            TokenKind::LBracket => "`[`",
            TokenKind::RBracket => "`]`",
            TokenKind::Fn => "`fn`",
            TokenKind::Let => "`let`",
            TokenKind::True => "`true`",
            TokenKind::False => "`false`",
            TokenKind::If => "`if`",
            TokenKind::Else => "`else`",
            TokenKind::Return => "`return`",
            TokenKind::Null => "`null`",
        }
    }

    /// The diagnostic name as an owned string.
    pub fn to_string(&self) -> (text: String)
        ensures
            text@ == self.spec_name()@,
    {
        self.name().to_owned()
    }
}

/// A token: its kind, the text it stands for, and where it was found.
#[derive(Debug)]
pub struct Token {
    pub kind: TokenKind,
    pub literal: String,
    pub span: Span,
}

/// The mathematical value of a [`Token`].
pub struct TokenView {
    pub kind: TokenKind,
    pub literal: Seq<char>,
    pub span: Span,
}

impl View for Token {
    type V = TokenView;

    open spec fn view(&self) -> TokenView {
        TokenView { kind: self.kind, literal: self.literal@, span: self.span }
    }
}

impl Clone for Token {
    fn clone(&self) -> (copy: Self)
        ensures
            copy@ == self@,
    {
        Token { kind: self.kind, literal: self.literal.clone(), span: self.span }
    }
}

impl Token {
    /// The one-character operator or punctuation token `literal` found at `span`.
    pub fn special(literal: char, span: Span) -> (token: Option<Token>)
        ensures
            match special_kind(literal) {
                Some(kind) => token is Some && token->0@ == (TokenView {
                    kind,
                    literal: seq![literal],
                    span,
                }),
                None => token is None,
            },
    {
        match TokenKind::special(literal) {
            Some(kind) => {
                let one: [char; 1] = [literal];
                let text = string_of(one.as_slice());
                assert(text@ =~= seq![literal]);
                Some(Token { kind, literal: text, span })
            },
            None => None,
        }
    }

    /// The keyword or identifier token spelled `literal` found at `span`.
    pub fn word(literal: &str, span: Span) -> (token: Option<Token>)
        ensures
            match word_kind(literal@) {
                Some(kind) => token is Some && token->0@ == (TokenView {
                    kind,
                    literal: literal@,
                    span,
                }),
                None => token is None,
            },
    {
        match TokenKind::word(literal) {
            Some(kind) => Some(Token { kind, literal: literal.to_owned(), span }),
            None => None,
        }
    }

    /// The token for a character that starts no token of the language.
    pub fn illegal(literal: char, span: Span) -> (token: Token)
        ensures
            token@ == (TokenView { kind: TokenKind::Illegal(literal), literal: seq![literal], span }),
    {
        let one: [char; 1] = [literal];
        let text = string_of(one.as_slice());
        assert(text@ =~= seq![literal]);
        Token { kind: TokenKind::Illegal(literal), literal: text, span }
    }
}

} // verus!
