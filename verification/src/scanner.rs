//! The scanner: source bytes to tokens, one token per call.

use vstd::prelude::*;
use vstd::slice::{slice_subrange, slice_to_vec};
use vstd::string::*;
use crate::lexical::{
    blank_end, byte_at, is_blank, keyword_kind, lexeme_at, line_after, newlines, run_end, scan,
    starts_comment, Run,
};
use crate::lexical;

verus! {

/// The lexical categories.
#[derive(Debug, PartialEq, Eq, Copy, Clone, Structural)]
pub enum TokenKind {
    // Single-character tokens.
    LeftParen,
    RightParen,
    LeftBrace,
    RightBrace,
    Comma,
    Dot,
    Minus,
    Plus,
    Semicolon,
    Slash,
    Star,
    // One or two character tokens.
    Bang,
    BangEqual,
    Equal,
    EqualEqual,
    Greater,
    GreaterEqual,
    Less,
    LessEqual,
    // Literals.
    Identifier,
    String,
    Number,
    // Keywords.
    And,
    Class,
    Else,
    False,
    For,
    Fun,
    If,
    Nil,
    Or,
    Print,
    Return,
    Super,
    This,
    True,
    Var,
    While,
    /// A lexical failure; the lexeme holds the message.
    Error,
    Eof,
}


/// A classified lexical unit with its raw text and source line.
#[derive(Debug)]
pub struct Token {
    pub kind: TokenKind,
    pub lexeme: Vec<u8>,
    pub line: usize,
}

/// A token as a mathematical value.
pub ghost struct TokenModel {
    pub kind: TokenKind,
    pub lexeme: Seq<u8>,
    pub line: usize,
}

impl View for Token {
    type V = TokenModel;

    open spec fn view(&self) -> TokenModel {
        TokenModel { kind: self.kind, lexeme: self.lexeme@, line: self.line }
    }
}

impl Clone for Token {
    fn clone(&self) -> (copy: Self)
        ensures
            copy@ == self@,
    {
        let lexeme = self.lexeme.clone();
        assert(lexeme@ =~= self.lexeme@);
        Token { kind: self.kind, lexeme, line: self.line }
    }
}

impl Default for Token {
    fn default() -> (token: Self)
        ensures
            token@ == (TokenModel { kind: TokenKind::Error, lexeme: Seq::empty(), line: 0 }),
    {
        Token { kind: TokenKind::Error, lexeme: Vec::new(), line: 0 }
    }
}

/// A cursor over a source text that hands out one token per call.
pub struct Scanner<'source> {
    pub source: &'source [u8],
    start: usize,
    current: usize,
    line: usize,
}

impl<'source> Scanner<'source> {
    /// The bytes being scanned.
    pub closed spec fn text(&self) -> Seq<u8> {
        self.source@
    }

    /// The offset of the next byte to read.
    pub closed spec fn offset(&self) -> int {
        self.current as int
    }

    /// The offset at which the most recent token started.
    pub closed spec fn token_start(&self) -> int {
        self.start as int
    }

    /// The line counter: one more than the newlines read so far.
    pub closed spec fn line_number(&self) -> usize {
        self.line
    }

    /// The cursor lies inside the source, at or after the token start.
    pub open spec fn wf(&self) -> bool {
        0 <= self.token_start() <= self.offset() <= self.text().len()
    }

    /// A scanner at the start of `source`, on line 1.
    pub fn new(source: &'source [u8]) -> (scanner: Self)
        ensures
            scanner.text() == source@,
            scanner.token_start() == 0,
            scanner.offset() == 0,
            scanner.line_number() == 1,
            scanner.wf(),
    {
        Self { source, start: 0, current: 0, line: 1 }
    }

    /// Skips whitespace and comments, then reads one token. At the end of
    /// the source the token is `Eof`, again on every later call.
    pub fn scan_token(&mut self) -> (token: Token)
        requires
            old(self).wf(),
        ensures
            final(self).wf(),
            final(self).text() == old(self).text(),
            ({
                let found = scan(old(self).text(), old(self).offset(), old(self).line_number());
                &&& token@ == (TokenModel { kind: found.kind, lexeme: found.text, line: found.line })
                &&& final(self).token_start() == found.start
                &&& final(self).offset() == found.end
                &&& final(self).line_number() == found.line
            }),
    {
        let ghost s = self.source@;
        let ghost from = self.current as int;
        self.skip_whitespace();
        self.start = self.current;
        let ghost p = self.current as int;

        if self.is_at_end() {
            assert(s.subrange(p, p) =~= Seq::empty());
            return self.make_token(TokenKind::Eof);
        }
        let c = self.advance();
        proof {
            lexical::lemma_lexeme_end(s, p);
            lexical::lemma_newlines_split(s, from, p, p + 1);
            lexical::lemma_newlines_split(s, from, p + 1, lexeme_at(s, p).end);
            assert(newlines(s, p + 1, p + 2) == newlines(s, p + 1, p + 1) + if s[p + 1] == '\n' as u8 {
                1nat
            } else {
                0nat
            });
        }
        if c == '(' as u8 {
            return self.make_token(TokenKind::LeftParen);
        } else if c == ')' as u8 {
            return self.make_token(TokenKind::RightParen);
        } else if c == '{' as u8 {
            return self.make_token(TokenKind::LeftBrace);
        } else if c == '}' as u8 {
            return self.make_token(TokenKind::RightBrace);
        } else if c == ';' as u8 {
            return self.make_token(TokenKind::Semicolon);
        } else if c == ',' as u8 {
            return self.make_token(TokenKind::Comma);
        } else if c == '.' as u8 {
            return self.make_token(TokenKind::Dot);
        } else if c == '-' as u8 {
            return self.make_token(TokenKind::Minus);
        } else if c == '+' as u8 {
            return self.make_token(TokenKind::Plus);
        } else if c == '/' as u8 {
            return self.make_token(TokenKind::Slash);
        } else if c == '*' as u8 {
            return self.make_token(TokenKind::Star);
        } else if c == '!' as u8 {
            if self.matches('=' as u8) {
                return self.make_token(TokenKind::BangEqual);
            } else {
                return self.make_token(TokenKind::Bang);
            }
        } else if c == '=' as u8 {
            if self.matches('=' as u8) {
                return self.make_token(TokenKind::EqualEqual);
            } else {
                return self.make_token(TokenKind::Equal);
            }
        } else if c == '<' as u8 {
            if self.matches('=' as u8) {
                return self.make_token(TokenKind::LessEqual);
            } else {
                return self.make_token(TokenKind::Less);
            }
        } else if c == '>' as u8 {
            if self.matches('=' as u8) {
                return self.make_token(TokenKind::GreaterEqual);
            } else {
                return self.make_token(TokenKind::Greater);
            }
        } else if c == '"' as u8 {
            return self.string();
        } else if Self::is_digit(c) {
            return self.number();
        } else if Self::is_alpha(c) {
            return self.identifier();
        }
        self.error_token("Unexpected character.")
    }

    /// Whether `c` may start an identifier.
    fn is_alpha(c: u8) -> (yes: bool)
        ensures
            yes == lexical::is_alpha(c),
    {
        ('a' as u8 <= c && c <= 'z' as u8) || ('A' as u8 <= c && c <= 'Z' as u8) || c == '_' as u8
    }

    /// Whether `c` is a decimal digit.
    fn is_digit(c: u8) -> (yes: bool)
        ensures
            yes == lexical::is_digit(c),
    {
        '0' as u8 <= c && c <= '9' as u8
    }

    /// The state after a token that started at `before.start` was read, and
    /// the token handed out for it.
    spec fn yields(&self, before: Self, token: Token) -> bool {
        let s = before.source@;
        let found = lexeme_at(s, before.start as int);
        &&& self.source == before.source
        &&& self.start == before.start
        &&& self.current == found.end
        &&& self.current <= s.len()
        &&& self.line == line_after(before.line, newlines(s, before.current as int, found.end))
        &&& token@ == (TokenModel { kind: found.kind, lexeme: found.text, line: self.line })
    }

    /// Reads the rest of an identifier or keyword whose first byte was
    /// read.
    fn identifier(&mut self) -> (token: Token)
        requires
            old(self).start + 1 == old(self).current <= old(self).source@.len(),
            lexical::is_alpha(old(self).source@[old(self).start as int]),
        ensures
            final(self).yields(*old(self), token),
    {
        let ghost s = self.source@;
        let ghost first = self.current as int;
        loop
            invariant
                self.source == old(self).source,
                self.start == old(self).start,
                self.line == old(self).line,
                first <= self.current <= s.len(),
                s == self.source@,
                first == old(self).current,
                run_end(s, self.current as int, Run::Word) == run_end(s, first, Run::Word),
                newlines(s, first, self.current as int) == 0,
            ensures
                self.current == run_end(s, first, Run::Word),
            decreases s.len() - self.current,
        {
            let c = self.peek();
            if !(Self::is_alpha(c) || Self::is_digit(c)) {
                break;
            }
            self.advance();
        }
        let kind = self.identifier_kind();
        self.make_token(kind)
    }

    /// The kind of the word between `start` and `current`: it walks the
    /// keyword table by the first byte, and for `f` and `t` by the second.
    fn identifier_kind(&self) -> (kind: TokenKind)
        requires
            self.start < self.current <= self.source@.len(),
        ensures
            kind == keyword_kind(self.source@.subrange(self.start as int, self.current as int)),
    {
        let ghost text = self.source@.subrange(self.start as int, self.current as int);
        let ghost rest = self.source@.subrange(self.start as int + 1, self.current as int);
        let ghost rest2 = self.source@.subrange(self.start as int + 2, self.current as int);
        proof {
            assert(text[0] == self.source@[self.start as int]);
            assert(rest =~= text.subrange(1, text.len() as int));
            if text.len() >= 2 {
                assert(rest2 =~= text.subrange(2, text.len() as int));
            }
            lexical::lemma_keyword_dispatch(text);
        }
        let c = self.source[self.start];
        if c == 'a' as u8 {
            self.check_keyword(1, "nd", TokenKind::And)
        } else if c == 'c' as u8 {
            self.check_keyword(1, "lass", TokenKind::Class)
        } else if c == 'e' as u8 {
            self.check_keyword(1, "lse", TokenKind::Else)
        } else if c == 'f' as u8 {
            if self.current - self.start > 1 {
                assert(text[1] == self.source@[self.start as int + 1]);
                let d = self.source[self.start + 1];
                if d == 'a' as u8 {
                    self.check_keyword(2, "lse", TokenKind::False)
                } else if d == 'o' as u8 {
                    self.check_keyword(2, "r", TokenKind::For)
                } else if d == 'u' as u8 {
                    self.check_keyword(2, "n", TokenKind::Fun)
                } else {
                    TokenKind::Identifier
                }
            } else {
                TokenKind::Identifier
            }
        } else if c == 'i' as u8 {
            self.check_keyword(1, "f", TokenKind::If)
        } else if c == 'n' as u8 {
            self.check_keyword(1, "il", TokenKind::Nil)
        } else if c == 'o' as u8 {
            self.check_keyword(1, "r", TokenKind::Or)
        } else if c == 'p' as u8 {
            self.check_keyword(1, "rint", TokenKind::Print)
        } else if c == 'r' as u8 {
            self.check_keyword(1, "eturn", TokenKind::Return)
        } else if c == 's' as u8 {
            self.check_keyword(1, "uper", TokenKind::Super)
        } else if c == 't' as u8 {
            if self.current - self.start > 1 {
                assert(text[1] == self.source@[self.start as int + 1]);
                let d = self.source[self.start + 1];
                if d == 'h' as u8 {
                    self.check_keyword(2, "is", TokenKind::This)
                } else if d == 'r' as u8 {
                    self.check_keyword(2, "ue", TokenKind::True)
                } else {
                    TokenKind::Identifier
                }
            } else {
                TokenKind::Identifier
            }
        } else if c == 'v' as u8 {
            self.check_keyword(1, "ar", TokenKind::Var)
        } else if c == 'w' as u8 {
            self.check_keyword(1, "hile", TokenKind::While)
        } else {
            TokenKind::Identifier
        }
    }

    /// `kind` where the word goes on from `start_offset` with exactly
    /// `rest`, else `Identifier`.
    fn check_keyword(&self, start_offset: usize, rest: &str, kind: TokenKind) -> (found: TokenKind)
        requires
            self.start + start_offset <= self.current <= self.source@.len(),
        ensures
            found == if self.source@.subrange(self.start + start_offset, self.current as int)
                == rest.spec_bytes() {
                kind
            } else {
                TokenKind::Identifier
            },
    {
        let bytes = rest.as_bytes();
        let from = self.start + start_offset;
        let ghost tail = self.source@.subrange(from as int, self.current as int);
        if self.current - from != bytes.len() {
            assert(tail.len() == self.current - from);
            return TokenKind::Identifier;
        }
        let mut i: usize = 0;
        while i < bytes.len()
            invariant
                bytes@ == rest.spec_bytes(),
                from == self.start + start_offset,
                from + bytes@.len() == self.current <= self.source@.len(),
                tail == self.source@.subrange(from as int, self.current as int),
                i <= bytes@.len(),
                forall|j: int| 0 <= j < i ==> tail[j] == bytes@[j],
            decreases bytes@.len() - i,
        {
            if self.source[from + i] != bytes[i] {
                assert(tail[i as int] != bytes@[i as int]);
                return TokenKind::Identifier;
            }
            i += 1;
        }
        assert(tail =~= bytes@);
        kind
    }

    /// Reads the rest of a number whose first digit was read.
    fn number(&mut self) -> (token: Token)
        requires
            old(self).start + 1 == old(self).current <= old(self).source@.len(),
            lexical::is_digit(old(self).source@[old(self).start as int]),
        ensures
            final(self).yields(*old(self), token),
    {
        let ghost s = self.source@;
        let ghost first = self.current as int;
        loop
            invariant
                self.source == old(self).source,
                self.start == old(self).start,
                self.line == old(self).line,
                first <= self.current <= s.len(),
                s == self.source@,
                first == old(self).current,
                run_end(s, self.current as int, Run::Digits) == run_end(s, first, Run::Digits),
                newlines(s, first, self.current as int) == 0,
            ensures
                self.current == run_end(s, first, Run::Digits),
            decreases s.len() - self.current,
        {
            if !Self::is_digit(self.peek()) {
                break;
            }
            self.advance();
        }

        if self.peek() == '.' as u8 && Self::is_digit(self.peek_next()) {
            let ghost dot = self.current as int;
            self.advance();
            loop
                invariant
                    self.source == old(self).source,
                    self.start == old(self).start,
                    self.line == old(self).line,
                    dot < self.current <= s.len(),
                    s == self.source@,
                    run_end(s, self.current as int, Run::Digits) == run_end(s, dot + 1, Run::Digits),
                    newlines(s, first, self.current as int) == 0,
                ensures
                    self.current == run_end(s, dot + 1, Run::Digits),
                decreases s.len() - self.current,
            {
                if !Self::is_digit(self.peek()) {
                    break;
                }
                self.advance();
            }
        }
        self.make_token(TokenKind::Number)
    }

    /// Reads the rest of a string whose opening quote was read. Without a
    /// closing quote the token is an error and takes the rest of the text.
    fn string(&mut self) -> (token: Token)
        requires
            old(self).start + 1 == old(self).current <= old(self).source@.len(),
            old(self).source@[old(self).start as int] == '"' as u8,
        ensures
            final(self).yields(*old(self), token),
    {
        let ghost s = self.source@;
        let ghost first = self.current as int;
        while self.peek() != '"' as u8 && !self.is_at_end()
            invariant
                self.source == old(self).source,
                self.start == old(self).start,
                first <= self.current <= s.len(),
                s == self.source@,
                first == old(self).current,
                run_end(s, self.current as int, Run::Quoted) == run_end(s, first, Run::Quoted),
                self.line == line_after(old(self).line, newlines(s, first, self.current as int)),
            decreases s.len() - self.current,
        {
            if self.peek() == '\n' as u8 {
                self.next_line();
            }
            self.advance();
        }

        if self.is_at_end() {
            self.error_token("Unterminated string.")
        } else {
            self.advance();
            self.make_token(TokenKind::String)
        }
    }

    /// Counts one more line; the counter stops at its largest value.
    fn next_line(&mut self)
        ensures
            final(self).source == old(self).source,
            final(self).start == old(self).start,
            final(self).current == old(self).current,
            final(self).line == line_after(old(self).line, 1),
    {
        if self.line < usize::MAX {
            self.line += 1;
        }
    }

    /// Moves to the next byte that is neither whitespace nor in a comment,
    /// counting the lines on the way.
    fn skip_whitespace(&mut self)
        requires
            old(self).current <= old(self).source@.len(),
        ensures
            final(self).source == old(self).source,
            final(self).start == old(self).start,
            final(self).current == blank_end(old(self).source@, old(self).current as int),
            old(self).current <= final(self).current <= old(self).source@.len(),
            final(self).line == line_after(
                old(self).line,
                newlines(old(self).source@, old(self).current as int, final(self).current as int),
            ),
            !is_blank(byte_at(old(self).source@, final(self).current as int)),
            !starts_comment(old(self).source@, final(self).current as int),
    {
        let ghost s = self.source@;
        let ghost from = self.current as int;
        loop
            invariant
                self.source == old(self).source,
                self.start == old(self).start,
                s == self.source@,
                from == old(self).current,
                from <= self.current <= s.len(),
                blank_end(s, self.current as int) == blank_end(s, from),
                self.line == line_after(old(self).line, newlines(s, from, self.current as int)),
            decreases s.len() - self.current,
        {
            let c = self.peek();
            if c == ' ' as u8 || c == '\r' as u8 || c == '\t' as u8 {
                self.advance();
            } else if c == '\n' as u8 {
                self.next_line();
                self.advance();
            } else if c == '/' as u8 {
                if self.peek_next() == '/' as u8 {
                    let ghost slash = self.current as int;
                    proof {
                        lexical::lemma_run_end(s, slash + 2, Run::Line);
                        assert(run_end(s, slash, Run::Line) == run_end(s, slash + 1, Run::Line));
                        assert(run_end(s, slash + 1, Run::Line) == run_end(s, slash + 2, Run::Line));
                    }
                    while self.peek() != '\n' as u8 && !self.is_at_end()
                        invariant
                            self.source == old(self).source,
                            self.start == old(self).start,
                            s == self.source@,
                            from <= slash <= self.current <= s.len(),
                            run_end(s, self.current as int, Run::Line) == run_end(
                                s,
                                slash + 2,
                                Run::Line,
                            ),
                            self.line == line_after(
                                old(self).line,
                                newlines(s, from, self.current as int),
                            ),
                        decreases s.len() - self.current,
                    {
                        self.advance();
                    }
                } else {
                    return ;
                }
            } else {
                return ;
            }
        }
    }

    /// The byte after the next one, NUL where there is none.
    fn peek_next(&self) -> (c: u8)
        requires
            self.current <= self.source@.len(),
        ensures
            c == byte_at(self.source@, self.current + 1),
    {
        if self.source.len() - self.current <= 1 {
            0
        } else {
            self.source[self.current + 1]
        }
    }

    /// The next byte, NUL at the end of the text.
    fn peek(&self) -> (c: u8)
        ensures
            c == byte_at(self.source@, self.current as int),
    {
        if self.is_at_end() {
            0
        } else {
            self.source[self.current]
        }
    }

    /// Reads the next byte if it is `expected`.
    fn matches(&mut self, expected: u8) -> (matched: bool)
        ensures
            final(self).source == old(self).source,
            final(self).start == old(self).start,
            final(self).line == old(self).line,
            matched == (old(self).current < old(self).source@.len() && old(self).source@[old(
                self,
            ).current as int] == expected),
            final(self).current == if matched {
                old(self).current + 1
            } else {
                old(self).current as int
            },
    {
        if self.is_at_end() || self.source[self.current] != expected {
            false
        } else {
            self.current += 1;
            true
        }
    }

    /// Reads the next byte.
    fn advance(&mut self) -> (c: u8)
        requires
            old(self).current < old(self).source@.len(),
        ensures
            final(self).source == old(self).source,
            final(self).start == old(self).start,
            final(self).line == old(self).line,
            final(self).current == old(self).current + 1,
            c == old(self).source@[old(self).current as int],
    {
        assert(self.source@.len() == self.source.len());
        self.current += 1;
        self.source[self.current - 1]
    }

    /// Whether every byte was read.
    fn is_at_end(&self) -> (at_end: bool)
        ensures
            at_end == (self.current >= self.source@.len()),
    {
        self.current >= self.source.len()
    }

    /// The token of kind `kind` for the bytes from `start` to `current`.
    fn make_token(&self, kind: TokenKind) -> (token: Token)
        requires
            self.start <= self.current <= self.source@.len(),
        ensures
            token@ == (TokenModel {
                kind,
                lexeme: self.source@.subrange(self.start as int, self.current as int),
                line: self.line,
            }),
    {
        Token {
            kind,
            lexeme: slice_to_vec(slice_subrange(self.source, self.start, self.current)),
            line: self.line,
        }
    }

    /// An error token: its lexeme is the message.
    fn error_token(&self, message: &str) -> (token: Token)
        ensures
            token@ == (TokenModel {
                kind: TokenKind::Error,
                lexeme: message.spec_bytes(),
                line: self.line,
            }),
    {
        Token { kind: TokenKind::Error, lexeme: slice_to_vec(message.as_bytes()), line: self.line }
    }
}

} // verus!
