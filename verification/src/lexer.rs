//! A small hand-written lexer for the embedded expression language.
//!
//! The specification mirrors the scan exactly: `lex_step` says, for any
//! position, which token starts at the next non-blank character, what text
//! it covers, and where the scan stands afterwards.

use vstd::prelude::*;
use vstd::string::StrSliceExecFns;

use crate::strutil;

verus! {

/// The kinds of token the lexer produces.
#[derive(Debug, PartialEq, Eq, Clone, Copy, Structural)]
pub enum TokenType {
    Illegal,
    EOF,
    Ident,
    Int,
    Assign,
    Plus,
    Minus,
    Bang,
    Asterisk,
    Slash,
    LT,
    GT,
    Eq,
    NotEq,
    Comma,
    Semicolon,
    LParen,
    RParen,
    LBrace,
    RBrace,
    Function,
    Let,
    True,
    False,
    If,
    Else,
    Return,
}

/// One token: its kind and the input text it covers.
pub struct Token<'a> {
    pub kind: TokenType,
    pub literal: &'a str,
}

pub open spec fn is_ws_char(c: char) -> bool {
    c == ' ' || c == '\t' || c == '\n' || c == '\r' || c as u32 == 11 || c as u32 == 12
}

pub open spec fn is_letter_char(c: char) -> bool {
    ('a' <= c && c <= 'z') || ('A' <= c && c <= 'Z') || c == '_'
}

pub open spec fn is_digit_char(c: char) -> bool {
    '0' <= c && c <= '9'
}

/// Identifier start and part characters: ASCII letters and the underscore.
pub fn is_letter(ch: char) -> (r: bool)
    ensures
        r == is_letter_char(ch),
{
    ('a' <= ch && ch <= 'z') || ('A' <= ch && ch <= 'Z') || ch == '_'
}

/// The first non-blank position at or after `i`.
pub open spec fn skip_ws_from(s: Seq<char>, i: int) -> int
    decreases s.len() - i,
{
    if 0 <= i < s.len() && is_ws_char(s[i]) {
        skip_ws_from(s, i + 1)
    } else {
        i
    }
}

/// Where the identifier starting at `i` ends.
pub open spec fn ident_end_from(s: Seq<char>, i: int) -> int
    decreases s.len() - i,
{
    if 0 <= i < s.len() && (is_letter_char(s[i]) || is_digit_char(s[i])) {
        ident_end_from(s, i + 1)
    } else {
        i
    }
}

/// Where the number starting at `i` ends.
pub open spec fn num_end_from(s: Seq<char>, i: int) -> int
    decreases s.len() - i,
{
    if 0 <= i < s.len() && is_digit_char(s[i]) {
        num_end_from(s, i + 1)
    } else {
        i
    }
}

/// The keyword table of the lexer's token vocabulary.
pub open spec fn spec_keyword_kind(s: Seq<char>) -> TokenType {
    if s == "fn"@ {
        TokenType::Function
    } else if s == "let"@ {
        TokenType::Let
    } else if s == "true"@ {
        TokenType::True
    } else if s == "false"@ {
        TokenType::False
    } else if s == "if"@ {
        TokenType::If
    } else if s == "else"@ {
        TokenType::Else
    } else if s == "return"@ {
        TokenType::Return
    } else {
        TokenType::Ident
    }
}

/// One scan step: the token found, its text, and the next position.
pub struct LexStep {
    pub kind: TokenType,
    pub literal: Seq<char>,
    pub next: int,
}

pub open spec fn single_char_kind(c: char) -> TokenType {
    if c == '+' {
        TokenType::Plus
    } else if c == '-' {
        TokenType::Minus
    } else if c == '*' {
        TokenType::Asterisk
    } else if c == '/' {
        TokenType::Slash
    } else if c == '<' {
        TokenType::LT
    } else if c == '>' {
        TokenType::GT
    } else if c == ',' {
        TokenType::Comma
    } else if c == ';' {
        TokenType::Semicolon
    } else if c == '(' {
        TokenType::LParen
    } else if c == ')' {
        TokenType::RParen
    } else if c == '{' {
        TokenType::LBrace
    } else if c == '}' {
        TokenType::RBrace
    } else {
        TokenType::Illegal
    }
}

/// What `next_token` yields from position `p`.
pub open spec fn lex_step(s: Seq<char>, p: int) -> LexStep {
    let i = skip_ws_from(s, p);
    if i >= s.len() {
        LexStep {
            kind: TokenType::EOF,
            literal: Seq::empty(),
            next: if i == s.len() {
                i + 1
            } else {
                i
            },
        }
    } else {
        let c = s[i];
        if c == '=' {
            if i + 1 < s.len() && s[i + 1] == '=' {
                LexStep { kind: TokenType::Eq, literal: s.subrange(i, i + 2), next: i + 2 }
            } else {
                LexStep { kind: TokenType::Assign, literal: s.subrange(i, i + 1), next: i + 1 }
            }
        } else if c == '!' {
            if i + 1 < s.len() && s[i + 1] == '=' {
                LexStep { kind: TokenType::NotEq, literal: s.subrange(i, i + 2), next: i + 2 }
            } else {
                LexStep { kind: TokenType::Bang, literal: s.subrange(i, i + 1), next: i + 1 }
            }
        } else if is_letter_char(c) {
            let e = ident_end_from(s, i);
            LexStep {
                kind: spec_keyword_kind(s.subrange(i, e)),
                literal: s.subrange(i, e),
                next: e,
            }
        } else if is_digit_char(c) {
            let e = num_end_from(s, i);
            LexStep { kind: TokenType::Int, literal: s.subrange(i, e), next: e }
        } else {
            LexStep { kind: single_char_kind(c), literal: s.subrange(i, i + 1), next: i + 1 }
        }
    }
}

/// Lexer over an input string, producing tokens on demand.
pub struct Lexer<'a> {
    pub input: &'a str,
    pub position: usize,
    pub read_position: usize,
    pub current_char: Option<char>,
}

impl<'a> Lexer<'a> {
    /// The lexer's internal consistency.
    pub open spec fn wf(self) -> bool {
        let n = self.input@.len();
        &&& n < usize::MAX
        &&& self.position <= n + 1
        &&& (self.position < n ==> self.current_char == Option::Some(
            self.input@[self.position as int],
        ))
        &&& (self.position >= n ==> self.current_char is None)
        &&& (self.position <= n ==> self.read_position == self.position + 1)
        &&& (self.position == n + 1 ==> self.read_position == self.position)
    }

    /// Creates a lexer positioned at the input's first character.
    pub fn new(input: &'a str) -> (r: Lexer<'a>)
        requires
            input@.len() < usize::MAX,
        ensures
            r.wf(),
            r.input@ == input@,
            r.position == 0,
    {
        let mut lexer = Lexer { input, position: 0, read_position: 0, current_char: Option::None };
        lexer.read_char();
        lexer
    }

    /// Advances by one character; past the end the lexer stands still.
    fn read_char(&mut self)
        requires
            old(self).input@.len() < usize::MAX,
            old(self).read_position <= old(self).input@.len() + 1,
        ensures
            final(self).input == old(self).input,
            final(self).position == old(self).read_position,
            final(self).read_position as int == (if old(self).read_position
                <= final(self).input@.len() {
                old(self).read_position + 1
            } else {
                old(self).read_position as int
            }),
            final(self).current_char == (if old(self).read_position < final(self).input@.len() {
                Option::Some(final(self).input@[old(self).read_position as int])
            } else {
                Option::<char>::None
            }),
    {
        let n: usize = self.input.unicode_len();
        if self.read_position < n {
            self.current_char = Option::Some(self.input.get_char(self.read_position));
            self.position = self.read_position;
            self.read_position = self.read_position + 1;
        } else {
            self.current_char = Option::None;
            self.position = self.read_position;
            if self.read_position == n {
                self.read_position = self.read_position + 1;
            }
        }
    }

    /// The next character, without advancing.
    fn peek_char(&self) -> (r: Option<char>)
        ensures
            r == (if self.read_position < self.input@.len() {
                Option::Some(self.input@[self.read_position as int])
            } else {
                Option::<char>::None
            }),
    {
        let n: usize = self.input.unicode_len();
        if self.read_position < n {
            Option::Some(self.input.get_char(self.read_position))
        } else {
            Option::None
        }
    }

    /// Skips blanks: afterwards the lexer stands at the first non-blank
    /// character at or after where it stood.
    fn skip_whitespace(&mut self)
        requires
            old(self).wf(),
        ensures
            final(self).wf(),
            final(self).input == old(self).input,
            final(self).position as int == skip_ws_from(
                old(self).input@,
                old(self).position as int,
            ),
    {
        let ghost s = self.input@;
        loop
            invariant
                self.wf(),
                self.input == old(self).input,
                self.input@ == s,
                skip_ws_from(s, old(self).position as int) == skip_ws_from(
                    s,
                    self.position as int,
                ),
            ensures
                (match self.current_char {
                    Option::Some(ch) => !is_ws_char(ch),
                    Option::None => true,
                }),
            decreases s.len() + 1 - self.position,
        {
            let advance = match self.current_char {
                Option::Some(ch) => {
                    (ch == ' ' || ch == '\t' || ch == '\n' || ch == '\r' || (ch as u32) == 11 || (
                    ch as u32) == 12)
                },
                Option::None => false,
            };
            if !advance {
                break ;
            }
            proof {
                assert(self.position < s.len());
                assert(is_ws_char(s[self.position as int]));
            }
            self.read_char();
        }
        proof {
            if self.position < s.len() {
                assert(self.current_char == Option::Some(s[self.position as int]));
                assert(!is_ws_char(s[self.position as int]));
            }
            assert(skip_ws_from(s, self.position as int) == self.position as int);
        }
    }

    /// Reads an identifier starting at the current position.
    fn read_identifier(&mut self) -> (r: &'a str)
        requires
            old(self).wf(),
            old(self).position < old(self).input@.len(),
            is_letter_char(old(self).input@[old(self).position as int]),
        ensures
            final(self).wf(),
            final(self).input == old(self).input,
            final(self).position as int == ident_end_from(
                old(self).input@,
                old(self).position as int,
            ),
            r@ == old(self).input@.subrange(
                old(self).position as int,
                final(self).position as int,
            ),
    {
        let ghost s = self.input@;
        let start: usize = self.position;
        loop
            invariant
                self.wf(),
                self.input == old(self).input,
                self.input@ == s,
                start <= self.position,
                self.position <= s.len(),
                ident_end_from(s, start as int) == ident_end_from(s, self.position as int),
            ensures
                (match self.current_char {
                    Option::Some(ch) => !is_letter_char(ch) && !is_digit_char(ch),
                    Option::None => true,
                }),
            decreases s.len() + 1 - self.position,
        {
            let advance = match self.current_char {
                Option::Some(ch) => is_letter(ch) || ('0' <= ch && ch <= '9'),
                Option::None => false,
            };
            if !advance {
                break ;
            }
            proof {
                assert(self.position < s.len());
            }
            self.read_char();
        }
        proof {
            if self.position < s.len() {
                assert(self.current_char == Option::Some(s[self.position as int]));
            }
            assert(ident_end_from(s, self.position as int) == self.position as int);
        }
        let piece = self.input.substring_char(start, self.position);
        piece
    }

    /// Reads a number literal starting at the current position.
    fn read_number(&mut self) -> (r: &'a str)
        requires
            old(self).wf(),
            old(self).position < old(self).input@.len(),
            is_digit_char(old(self).input@[old(self).position as int]),
        ensures
            final(self).wf(),
            final(self).input == old(self).input,
            final(self).position as int == num_end_from(
                old(self).input@,
                old(self).position as int,
            ),
            r@ == old(self).input@.subrange(
                old(self).position as int,
                final(self).position as int,
            ),
    {
        let ghost s = self.input@;
        let start: usize = self.position;
        loop
            invariant
                self.wf(),
                self.input == old(self).input,
                self.input@ == s,
                start <= self.position,
                self.position <= s.len(),
                num_end_from(s, start as int) == num_end_from(s, self.position as int),
            ensures
                (match self.current_char {
                    Option::Some(ch) => !is_digit_char(ch),
                    Option::None => true,
                }),
            decreases s.len() + 1 - self.position,
        {
            let advance = match self.current_char {
                Option::Some(ch) => '0' <= ch && ch <= '9',
                Option::None => false,
            };
            if !advance {
                break ;
            }
            proof {
                assert(self.position < s.len());
            }
            self.read_char();
        }
        proof {
            if self.position < s.len() {
                assert(self.current_char == Option::Some(s[self.position as int]));
            }
            assert(num_end_from(s, self.position as int) == self.position as int);
        }
        let piece = self.input.substring_char(start, self.position);
        piece
    }

    /// Produces the next token: exactly what `lex_step` names at the
    /// position the lexer stands on.
    pub fn next_token(&mut self) -> (tok: Token<'a>)
        requires
            old(self).wf(),
        ensures
            final(self).wf(),
            final(self).input == old(self).input,
            tok.kind == lex_step(old(self).input@, old(self).position as int).kind,
            tok.literal@ == lex_step(old(self).input@, old(self).position as int).literal,
            final(self).position as int == lex_step(
                old(self).input@,
                old(self).position as int,
            ).next,
    {
        let ghost s = self.input@;
        self.skip_whitespace();
        let ghost i = self.position as int;
        let n: usize = self.input.unicode_len();
        match self.current_char {
            Option::None => {
                proof {
                    assert(i >= s.len());
                }
                self.read_char();
                let lit = self.input.substring_char(0, 0);
                proof {
                    assert(lit@ =~= Seq::<char>::empty());
                }
                Token { kind: TokenType::EOF, literal: lit }
            },
            Option::Some(c) => {
                proof {
                    assert(i < s.len());
                    assert(s[i] == c);
                }
                if c == '=' {
                    let two = match self.peek_char() {
                        Option::Some(p2) => p2 == '=',
                        Option::None => false,
                    };
                    if two {
                        let lit = self.input.substring_char(self.position, self.position + 2);
                        self.read_char();
                        self.read_char();
                        proof {
                            assert(lit@ =~= s.subrange(i, i + 2));
                        }
                        Token { kind: TokenType::Eq, literal: lit }
                    } else {
                        let lit = self.input.substring_char(self.position, self.position + 1);
                        self.read_char();
                        proof {
                            assert(lit@ =~= s.subrange(i, i + 1));
                        }
                        Token { kind: TokenType::Assign, literal: lit }
                    }
                } else if c == '!' {
                    let two = match self.peek_char() {
                        Option::Some(p2) => p2 == '=',
                        Option::None => false,
                    };
                    if two {
                        let lit = self.input.substring_char(self.position, self.position + 2);
                        self.read_char();
                        self.read_char();
                        proof {
                            assert(lit@ =~= s.subrange(i, i + 2));
                        }
                        Token { kind: TokenType::NotEq, literal: lit }
                    } else {
                        let lit = self.input.substring_char(self.position, self.position + 1);
                        self.read_char();
                        proof {
                            assert(lit@ =~= s.subrange(i, i + 1));
                        }
                        Token { kind: TokenType::Bang, literal: lit }
                    }
                } else if is_letter(c) {
                    let lit = self.read_identifier();
                    let kind = lookup_keyword(lit);
                    Token { kind, literal: lit }
                } else if '0' <= c && c <= '9' {
                    let lit = self.read_number();
                    Token { kind: TokenType::Int, literal: lit }
                } else {
                    let lit = self.input.substring_char(self.position, self.position + 1);
                    self.read_char();
                    proof {
                        assert(lit@ =~= s.subrange(i, i + 1));
                    }
                    let kind = if c == '+' {
                        TokenType::Plus
                    } else if c == '-' {
                        TokenType::Minus
                    } else if c == '*' {
                        TokenType::Asterisk
                    } else if c == '/' {
                        TokenType::Slash
                    } else if c == '<' {
                        TokenType::LT
                    } else if c == '>' {
                        TokenType::GT
                    } else if c == ',' {
                        TokenType::Comma
                    } else if c == ';' {
                        TokenType::Semicolon
                    } else if c == '(' {
                        TokenType::LParen
                    } else if c == ')' {
                        TokenType::RParen
                    } else if c == '{' {
                        TokenType::LBrace
                    } else if c == '}' {
                        TokenType::RBrace
                    } else {
                        TokenType::Illegal
                    };
                    Token { kind, literal: lit }
                }
            },
        }
    }
}

/// Classifies an identifier of the lexer's vocabulary: a keyword's own
/// type, or `Ident`.
pub fn lookup_keyword(ident: &str) -> (r: TokenType)
    ensures
        r == spec_keyword_kind(ident@),
{
    if strutil::str_eq(ident, "fn") {
        TokenType::Function
    } else if strutil::str_eq(ident, "let") {
        TokenType::Let
    } else if strutil::str_eq(ident, "true") {
        TokenType::True
    } else if strutil::str_eq(ident, "false") {
        TokenType::False
    } else if strutil::str_eq(ident, "if") {
        TokenType::If
    } else if strutil::str_eq(ident, "else") {
        TokenType::Else
    } else if strutil::str_eq(ident, "return") {
        TokenType::Return
    } else {
        TokenType::Ident
    }
}

} // verus!
