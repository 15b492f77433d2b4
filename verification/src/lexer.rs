use crate::text::byte_len;
use crate::text::byte_offset;
use crate::text::chars_of;
use crate::text::lemma_byte_len_is_encoded_len;
use crate::text::lemma_byte_offset_monotonic;
use crate::text::lemma_byte_offset_step;
use crate::text::substring;
use crate::text::width_of;
use crate::token::keyword_kind;
use crate::token::keyword_of;
use crate::token::Span;
use crate::token::special_kind;
use crate::token::Token;
use crate::token::TokenKind;
use crate::token::TokenView;
use vstd::prelude::*;
use vstd::string::StringSliceAdditionalSpecFns;

verus! {

/// Whether `c` has the Unicode property `Alphabetic`, as `char::is_alphabetic` decides it.
pub uninterp spec fn unicode_alphabetic(c: char) -> bool;

/// Whether `c` is alphabetic or numeric in Unicode, as `char::is_alphanumeric` decides it.
pub uninterp spec fn unicode_alphanumeric(c: char) -> bool;

/// `char::is_alphabetic`.
#[verifier::external_body]
fn is_alphabetic(c: char) -> (yes: bool)
    ensures
        yes == unicode_alphabetic(c),
{
    c.is_alphabetic()
}

/// `char::is_alphanumeric`.
#[verifier::external_body]
fn is_alphanumeric(c: char) -> (yes: bool)
    ensures
        yes == unicode_alphanumeric(c),
{
    c.is_alphanumeric()
}

/// Whether an identifier can start with `c`, where `alphabetic` says whether
/// `c` is alphabetic.
pub fn starts_identifier(c: char, alphabetic: bool) -> (yes: bool)
    ensures
        yes == (alphabetic || c == '_'),
{
    alphabetic || c == '_'
}

/// Whether an identifier can go on with `c`, where `alphanumeric` says
/// whether `c` is alphabetic or numeric.
pub fn continues_identifier(c: char, alphanumeric: bool) -> (yes: bool)
    ensures
        yes == (alphanumeric || c == '_'),
{
    alphanumeric || c == '_'
}

/// ASCII whitespace: space, tab, line feed, form feed, carriage return.
pub open spec fn is_space(c: char) -> bool {
    c == ' ' || c == '\t' || c == '\n' || c == '\x0C' || c == '\r'
}

/// Whether an identifier can start with `c`.
pub open spec fn is_ident_start(c: char) -> bool {
    unicode_alphabetic(c) || c == '_'
}

/// Whether an identifier can go on with `c`.
pub open spec fn is_ident_part(c: char) -> bool {
    unicode_alphanumeric(c) || c == '_'
}

/// ASCII digits.
pub open spec fn is_digit(c: char) -> bool {
    '0' <= c <= '9'
}

/// The classes of characters of which a token can hold a run.
#[derive(Clone, Copy, Debug, PartialEq, Eq, Structural)]
pub enum CharClass {
    Space,
    IdentPart,
    Digit,
    StringBody,
}

/// Whether `c` belongs to `class`.
pub open spec fn in_class(class: CharClass, c: char) -> bool {
    match class {
        CharClass::Space => is_space(c),
        CharClass::IdentPart => is_ident_part(c),
        CharClass::Digit => is_digit(c),
        CharClass::StringBody => c != '"',
    }
}

/// The end of the longest run of characters of `class` that starts at `from`.
pub open spec fn run_end(s: Seq<char>, from: int, class: CharClass) -> int
    decreases s.len() - from,
{
    if 0 <= from < s.len() && in_class(class, s[from]) {
        run_end(s, from + 1, class)
    } else {
        from
    }
}

/// A run ends inside the source, holds characters of its class alone, and
/// is not followed by one.
pub proof fn lemma_run_end(s: Seq<char>, from: int, class: CharClass)
    requires
        0 <= from <= s.len(),
    ensures
        from <= run_end(s, from, class) <= s.len(),
        forall|j: int| from <= j < run_end(s, from, class) ==> in_class(class, #[trigger] s[j]),
        run_end(s, from, class) < s.len() ==> !in_class(class, s[run_end(s, from, class)]),
    decreases s.len() - from,
{
    if from < s.len() && in_class(class, s[from]) {
        lemma_run_end(s, from + 1, class);
    }
}

/// Where a token lies in the source, in characters, and what it is.
pub struct Lexeme {
    pub kind: TokenKind,
    /// Index of the token's first character.
    pub start: int,
    /// Index one past the token's last character.
    pub end: int,
}

/// The token that starts at the character `start`, which is no whitespace.
pub open spec fn lexeme_at(s: Seq<char>, start: int) -> Lexeme
    recommends
        0 <= start < s.len(),
{
    let c = s[start];
    if c == '=' && start + 1 < s.len() && s[start + 1] == '=' {
        Lexeme { kind: TokenKind::Eq, start, end: start + 2 }
    } else if c == '!' && start + 1 < s.len() && s[start + 1] == '=' {
        Lexeme { kind: TokenKind::Neq, start, end: start + 2 }
    } else if special_kind(c) is Some {
        Lexeme { kind: special_kind(c)->0, start, end: start + 1 }
    } else if c == '"' {
        let close = run_end(s, start + 1, CharClass::StringBody);
        Lexeme {
            kind: TokenKind::String,
            start,
            end: if close < s.len() {
                close + 1
            } else {
                close
            },
        }
    } else if is_ident_start(c) {
        let end = run_end(s, start + 1, CharClass::IdentPart);
        Lexeme {
            kind: match keyword_kind(s.subrange(start, end)) {
                Some(kind) => kind,
                None => TokenKind::Ident,
            },
            start,
            end,
        }
    } else if is_digit(c) {
        Lexeme { kind: TokenKind::Int, start, end: run_end(s, start + 1, CharClass::Digit) }
    } else {
        Lexeme { kind: TokenKind::Illegal(c), start, end: start + 1 }
    }
}

/// The text of a token: the characters it covers, and for a string literal
/// those without the first and the last.
pub open spec fn literal_of(s: Seq<char>, lexeme: Lexeme) -> Seq<char> {
    if lexeme.kind == TokenKind::String {
        if lexeme.end - 1 >= lexeme.start + 1 {
            s.subrange(lexeme.start + 1, lexeme.end - 1)
        } else {
            Seq::empty()
        }
    } else {
        s.subrange(lexeme.start, lexeme.end)
    }
}

/// The token that a lexeme of the source `s` stands for. Its span is the
/// range of bytes that the lexeme's characters occupy in the UTF-8 encoding
/// of `s`.
pub open spec fn token_of(s: Seq<char>, lexeme: Lexeme) -> TokenView {
    TokenView {
        kind: lexeme.kind,
        literal: literal_of(s, lexeme),
        span: Span {
            start: byte_offset(s, lexeme.start) as usize,
            end: byte_offset(s, lexeme.end) as usize,
        },
    }
}

/// The first token at or after the character `from`, if the rest of the
/// source is not all whitespace.
pub open spec fn next_lexeme(s: Seq<char>, from: int) -> Option<Lexeme> {
    let start = run_end(s, from, CharClass::Space);
    if start < s.len() {
        Some(lexeme_at(s, start))
    } else {
        None
    }
}

/// A token starts where it is looked for and covers at least one character.
pub proof fn lemma_lexeme_bounds(s: Seq<char>, start: int)
    requires
        0 <= start < s.len(),
    ensures
        lexeme_at(s, start).start == start,
        start < lexeme_at(s, start).end <= s.len(),
{
    lemma_run_end(s, start + 1, CharClass::StringBody);
    lemma_run_end(s, start + 1, CharClass::IdentPart);
    lemma_run_end(s, start + 1, CharClass::Digit);
}

/// The tokens of the source from the character `from` on.
pub open spec fn tokens_from(s: Seq<char>, from: int) -> Seq<TokenView>
    decreases s.len() - from,
{
    match next_lexeme(s, from) {
        Some(lexeme) => if from < lexeme.end <= s.len() {
            seq![token_of(s, lexeme)] + tokens_from(s, lexeme.end)
        } else {
            Seq::empty()
        },
        None => Seq::empty(),
    }
}

/// The tokens of the source `s`.
pub open spec fn tokens_of(s: Seq<char>) -> Seq<TokenView> {
    tokens_from(s, 0)
}

/// The values of a sequence of tokens.
pub open spec fn tokens_view(tokens: Seq<Token>) -> Seq<TokenView> {
    Seq::new(tokens.len(), |i: int| tokens[i]@)
}

/// The lexeme that the token `tokens_from(s, from)[i]` stands for.
pub proof fn lemma_token_lexeme(s: Seq<char>, from: int, i: int) -> (lexeme: Lexeme)
    requires
        0 <= from <= s.len(),
        0 <= i < tokens_from(s, from).len(),
    ensures
        from <= lexeme.start < lexeme.end <= s.len(),
        lexeme == lexeme_at(s, lexeme.start),
        tokens_from(s, from)[i] == token_of(s, lexeme),
    decreases s.len() - from,
{
    lemma_run_end(s, from, CharClass::Space);
    let first = next_lexeme(s, from)->0;
    lemma_lexeme_bounds(s, first.start);
    if i == 0 {
        first
    } else {
        let rest = tokens_from(s, first.end);
        assert(tokens_from(s, from)[i] == rest[i - 1]);
        lemma_token_lexeme(s, first.end, i - 1)
    }
}

/// Every token of a source text covers a range of it that is not empty. The
/// span of the token is that range in bytes, and the bytes in that range are
/// the encoding of the characters that the token covers. The literal is the
/// text that the token covers; for a string literal it is that text without
/// its first and its last character, the first being the opening quote.
pub proof fn law_token_footprint(s: Seq<char>, i: int) -> (lexeme: Lexeme)
    requires
        byte_len(s) <= usize::MAX,
        0 <= i < tokens_of(s).len(),
    ensures
        0 <= lexeme.start < lexeme.end <= s.len(),
        tokens_of(s)[i].kind == lexeme.kind,
        tokens_of(s)[i].span.start == byte_offset(s, lexeme.start),
        tokens_of(s)[i].span.end == byte_offset(s, lexeme.end),
        tokens_of(s)[i].span.start < tokens_of(s)[i].span.end <= byte_len(s),
        vstd::utf8::encode_utf8(s).subrange(
            tokens_of(s)[i].span.start as int,
            tokens_of(s)[i].span.end as int,
        ) == vstd::utf8::encode_utf8(s.subrange(lexeme.start, lexeme.end)),
        lexeme.kind != TokenKind::String ==> tokens_of(s)[i].literal == s.subrange(
            lexeme.start,
            lexeme.end,
        ),
        lexeme.kind == TokenKind::String ==> s[lexeme.start] == '"' && tokens_of(s)[i].literal
            == if lexeme.end - lexeme.start >= 2 {
            s.subrange(lexeme.start + 1, lexeme.end - 1)
        } else {
            Seq::empty()
        },
{
    let lexeme = lemma_token_lexeme(s, 0, i);
    crate::text::lemma_encoded_subrange(s, lexeme.start, lexeme.end);
    lemma_byte_offset_monotonic(s, lexeme.start, lexeme.end);
    lemma_run_end(s, lexeme.start + 1, CharClass::StringBody);
    lemma_run_end(s, lexeme.start + 1, CharClass::IdentPart);
    lemma_run_end(s, lexeme.start + 1, CharClass::Digit);
    lexeme
}

/// A scanner over a source text, which hands out its tokens one by one.
pub struct Lexer {
    chars: Vec<char>,
    /// Index of the next character to read.
    pos: usize,
    /// Offset of that character in bytes.
    offset: usize,
}

impl Lexer {
    /// The characters of the source.
    pub closed spec fn source(&self) -> Seq<char> {
        self.chars@
    }

    /// Index of the next character that the lexer will look at.
    pub closed spec fn position(&self) -> int {
        self.pos as int
    }

    /// What holds of every lexer: it stands inside its source, knows the
    /// byte offset of its position, and the source's bytes can be counted.
    pub closed spec fn wf(&self) -> bool {
        &&& self.pos <= self.chars.len()
        &&& self.offset == byte_offset(self.chars@, self.pos as int)
        &&& byte_len(self.chars@) <= usize::MAX
    }

    /// A lexer at the start of `input`.
    pub fn new(input: &str) -> (lexer: Lexer)
        ensures
            lexer.wf(),
            lexer.source() == input@,
            lexer.position() == 0,
    {
        let chars = chars_of(input);
        let n: usize = input.as_bytes().len();
        proof {
            lemma_byte_len_is_encoded_len(input@);
            assert(n == byte_len(input@));
            assert(chars@.take(0).len() == 0);
        }
        Lexer { chars, pos: 0, offset: 0 }
    }

    /// The character at the lexer's position, if the source has not ended.
    fn peek_char(&self) -> (c: Option<char>)
        requires
            self.wf(),
        ensures
            c == if self.position() < self.source().len() {
                Some(self.source()[self.position()])
            } else {
                None
            },
    {
        if self.pos < self.chars.len() {
            Some(self.chars[self.pos])
        } else {
            None
        }
    }

    /// Steps over the character at the lexer's position.
    fn read_char(&mut self)
        requires
            old(self).wf(),
            old(self).position() < old(self).source().len(),
        ensures
            final(self).wf(),
            final(self).source() == old(self).source(),
            final(self).position() == old(self).position() + 1,
    {
        let c = self.chars[self.pos];
        proof {
            lemma_byte_offset_step(self.chars@, self.pos as int);
            lemma_byte_offset_monotonic(self.chars@, self.pos as int + 1, self.chars@.len() as int);
            assert(self.chars@.take(self.chars@.len() as int) =~= self.chars@);
        }
        self.offset = self.offset + width_of(c);
        self.pos = self.pos + 1;
    }

    /// Steps over the longest run of characters of `class`.
    fn skip_run(&mut self, class: CharClass)
        requires
            old(self).wf(),
        ensures
            final(self).wf(),
            final(self).source() == old(self).source(),
            final(self).position() == run_end(old(self).source(), old(self).position(), class),
    {
        loop
            invariant
                self.wf(),
                self.source() == old(self).source(),
                old(self).position() <= self.position() <= self.source().len(),
                run_end(self.source(), self.position(), class) == run_end(
                    old(self).source(),
                    old(self).position(),
                    class,
                ),
            decreases self.source().len() - self.position(),
        {
            let keep = match self.peek_char() {
                None => false,
                Some(c) => match class {
                    CharClass::Space => c == ' ' || c == '\t' || c == '\n' || c == '\x0C' || c
                        == '\r',
                    CharClass::IdentPart => continues_identifier(c, is_alphanumeric(c)),
                    CharClass::Digit => '0' <= c && c <= '9',
                    CharClass::StringBody => c != '"',
                },
            };
            if !keep {
                return ;
            }
            self.read_char();
        }
    }

    /// The next token of the source, or `None` when only whitespace is left.
    ///
    /// The token's span is the range of bytes that it covers in the source.
    /// Its literal is the text in that range; for a string literal it is the
    /// text between the quotes.
    pub fn next(&mut self) -> (token: Option<Token>)
        requires
            old(self).wf(),
        ensures
            final(self).wf(),
            final(self).source() == old(self).source(),
            match next_lexeme(old(self).source(), old(self).position()) {
                Some(lexeme) => {
                    &&& token is Some
                    &&& token->0@ == token_of(old(self).source(), lexeme)
                    &&& final(self).position() == lexeme.end
                    &&& old(self).position() <= lexeme.start < lexeme.end <= old(
                        self,
                    ).source().len()
                },
                None => token is None && final(self).position() == old(self).source().len(),
            },
    {
        let ghost s = self.chars@;
        proof {
            lemma_run_end(s, self.pos as int, CharClass::Space);
        }
        self.skip_run(CharClass::Space);
        let start: usize = self.pos;
        let start_offset: usize = self.offset;
        let c = match self.peek_char() {
            None => {
                return None;
            },
            Some(c) => c,
        };
        proof {
            lemma_lexeme_bounds(s, start as int);
        }
        self.read_char();
        let kind = if (c == '=' || c == '!') && self.peek_char() == Some('=') {
            self.read_char();
            if c == '=' {
                TokenKind::Eq
            } else {
                TokenKind::Neq
            }
        } else {
            match TokenKind::special(c) {
                Some(kind) => kind,
                None => {
                    if c == '"' {
                        self.skip_run(CharClass::StringBody);
                        if self.peek_char().is_some() {
                            self.read_char();
                        }
                        TokenKind::String
                    } else if starts_identifier(c, is_alphabetic(c)) {
                        self.skip_run(CharClass::IdentPart);
                        let word = vstd::slice::slice_subrange(
                            self.chars.as_slice(),
                            start,
                            self.pos,
                        );
                        match keyword_of(word) {
                            Some(kind) => kind,
                            None => TokenKind::Ident,
                        }
                    } else if '0' <= c && c <= '9' {
                        self.skip_run(CharClass::Digit);
                        TokenKind::Int
                    } else {
                        TokenKind::Illegal(c)
                    }
                },
            }
        };
        let end: usize = self.pos;
        let ghost lexeme = lexeme_at(s, start as int);
        assert(lexeme.kind == kind && lexeme.end == end);
        let literal = if kind == TokenKind::String {
            if end - 1 >= start + 1 {
                substring(&self.chars, start + 1, end - 1)
            } else {
                String::new()
            }
        } else {
            substring(&self.chars, start, end)
        };
        Some(Token { kind, literal, span: Span { start: start_offset, end: self.offset } })
    }

    /// All the tokens that are left, in source order.
    pub fn tokens(&mut self) -> (tokens: Vec<Token>)
        requires
            old(self).wf(),
        ensures
            final(self).wf(),
            final(self).source() == old(self).source(),
            tokens_view(tokens@) == tokens_from(old(self).source(), old(self).position()),
    {
        let ghost s = self.chars@;
        let ghost from = self.pos as int;
        let mut tokens: Vec<Token> = Vec::new();
        loop
            invariant
                self.wf(),
                self.source() == s,
                s == old(self).source(),
                from == old(self).position(),
                tokens_from(s, from) == tokens_view(tokens@) + tokens_from(s, self.position()),
            decreases s.len() - self.position(),
        {
            let ghost before = tokens_view(tokens@);
            match self.next() {
                Some(token) => {
                    tokens.push(token);
                    assert(tokens_view(tokens@) =~= before.push(token@));
                    assert(before + (seq![token@] + tokens_from(s, self.position()))
                        =~= before.push(token@) + tokens_from(s, self.position()));
                },
                None => {
                    assert(tokens_view(tokens@) + Seq::<TokenView>::empty() =~= tokens_view(
                        tokens@,
                    ));
                    return tokens;
                },
            }
        }
    }
}

} // verus!
