//! The lexical grammar of Lox, stated over byte sequences.
//!
//! Nothing here runs: these are the definitions of what the next token of
//! a source text is, where it ends, and how many lines were crossed to
//! reach that end, and the laws that follow from them.

use vstd::prelude::*;
use vstd::string::*;
use vstd::utf8::{is_ascii_chars, is_ascii_chars_encode_utf8};
use crate::scanner::TokenKind;

verus! {

/// An ASCII decimal digit.
pub open spec fn is_digit(c: u8) -> bool {
    '0' as u8 <= c <= '9' as u8
}

/// A byte that may start an identifier: an ASCII letter or an underscore.
pub open spec fn is_alpha(c: u8) -> bool {
    ('a' as u8 <= c <= 'z' as u8) || ('A' as u8 <= c <= 'Z' as u8) || c == '_' as u8
}

/// Whitespace between tokens.
pub open spec fn is_blank(c: u8) -> bool {
    c == ' ' as u8 || c == '\r' as u8 || c == '\t' as u8 || c == '\n' as u8
}

/// The byte at `i`, or NUL where `i` is outside the text.
pub open spec fn byte_at(s: Seq<u8>, i: int) -> u8 {
    if 0 <= i < s.len() {
        s[i]
    } else {
        0
    }
}

/// The kinds of byte runs the grammar is built from.
pub enum Run {
    /// Decimal digits.
    Digits,
    /// Letters, digits and underscores: the tail of an identifier.
    Word,
    /// Anything but a newline: the body of a line comment.
    Line,
    /// Anything but a double quote: the body of a string literal.
    Quoted,
}

/// Whether byte `c` continues a run of the given kind.
pub open spec fn keeps(run: Run, c: u8) -> bool {
    match run {
        Run::Digits => is_digit(c),
        Run::Word => is_alpha(c) || is_digit(c),
        Run::Line => c != '\n' as u8,
        Run::Quoted => c != '"' as u8,
    }
}

/// Where the longest run of the given kind that starts at `i` ends: the
/// first index at or after `i` whose byte does not continue the run, or the
/// end of the text.
pub open spec fn run_end(s: Seq<u8>, i: int, run: Run) -> int
    decreases s.len() - i,
{
    if 0 <= i < s.len() && keeps(run, s[i]) {
        run_end(s, i + 1, run)
    } else {
        i
    }
}

/// The number of newline bytes in `s[from..to]`.
pub open spec fn newlines(s: Seq<u8>, from: int, to: int) -> nat
    decreases to - from,
{
    if from < to {
        newlines(s, from, to - 1) + if s[to - 1] == '\n' as u8 {
            1nat
        } else {
            0nat
        }
    } else {
        0
    }
}

/// The line counter after `crossed` more newlines. The counter stops at
/// `usize::MAX` rather than wrap.
pub open spec fn line_after(line: usize, crossed: nat) -> usize {
    if line + crossed <= usize::MAX {
        (line + crossed) as usize
    } else {
        usize::MAX
    }
}

/// Whether a `//` comment starts at `i`.
pub open spec fn starts_comment(s: Seq<u8>, i: int) -> bool {
    byte_at(s, i) == '/' as u8 && byte_at(s, i + 1) == '/' as u8
}

/// Where the whitespace and line comments that start at `i` end: the start
/// of the next token, or the end of the text.
pub open spec fn blank_end(s: Seq<u8>, i: int) -> int
    decreases s.len() - i,
{
    if i < 0 || i >= s.len() {
        i
    } else if is_blank(s[i]) {
        blank_end(s, i + 1)
    } else if starts_comment(s, i) {
        proof {
            lemma_run_end(s, i + 2, Run::Line);
        }
        blank_end(s, run_end(s, i + 2, Run::Line))
    } else {
        i
    }
}

/// The keyword table: the kind of an identifier-shaped lexeme.
pub open spec fn keyword_kind(text: Seq<u8>) -> TokenKind {
    if text == "and".spec_bytes() {
        TokenKind::And
    } else if text == "class".spec_bytes() {
        TokenKind::Class
    } else if text == "else".spec_bytes() {
        TokenKind::Else
    } else if text == "false".spec_bytes() {
        TokenKind::False
    } else if text == "for".spec_bytes() {
        TokenKind::For
    } else if text == "fun".spec_bytes() {
        TokenKind::Fun
    } else if text == "if".spec_bytes() {
        TokenKind::If
    } else if text == "nil".spec_bytes() {
        TokenKind::Nil
    } else if text == "or".spec_bytes() {
        TokenKind::Or
    } else if text == "print".spec_bytes() {
        TokenKind::Print
    } else if text == "return".spec_bytes() {
        TokenKind::Return
    } else if text == "super".spec_bytes() {
        TokenKind::Super
    } else if text == "this".spec_bytes() {
        TokenKind::This
    } else if text == "true".spec_bytes() {
        TokenKind::True
    } else if text == "var".spec_bytes() {
        TokenKind::Var
    } else if text == "while".spec_bytes() {
        TokenKind::While
    } else {
        TokenKind::Identifier
    }
}

/// Where the number literal that starts at `p` ends: digits, then
/// optionally a dot that is followed by at least one more digit.
pub open spec fn number_end(s: Seq<u8>, p: int) -> int {
    let whole = run_end(s, p, Run::Digits);
    if byte_at(s, whole) == '.' as u8 && is_digit(byte_at(s, whole + 1)) {
        run_end(s, whole + 1, Run::Digits)
    } else {
        whole
    }
}

/// The message of the error token for a string without its closing quote.
pub open spec fn unterminated_string() -> Seq<u8> {
    "Unterminated string.".spec_bytes()
}

/// The message of the error token for a byte that starts no token.
pub open spec fn unexpected_character() -> Seq<u8> {
    "Unexpected character.".spec_bytes()
}

/// A token as the grammar sees it: its kind, its text, and where it ends.
pub ghost struct Lexeme {
    pub kind: TokenKind,
    pub text: Seq<u8>,
    pub end: int,
}

/// The lexeme of kind `kind` that spans `s[p..end]`.
pub open spec fn spanning(kind: TokenKind, s: Seq<u8>, p: int, end: int) -> Lexeme {
    Lexeme { kind, text: s.subrange(p, end), end }
}

/// A one-byte operator, or its two-byte form where `=` follows.
pub open spec fn operator(alone: TokenKind, with_equal: TokenKind, s: Seq<u8>, p: int) -> Lexeme {
    if byte_at(s, p + 1) == '=' as u8 {
        spanning(with_equal, s, p, p + 2)
    } else {
        spanning(alone, s, p, p + 1)
    }
}

/// The token that starts at `p`, where `p` is neither blank nor the start
/// of a comment. At or past the end of the text this is `Eof`.
pub open spec fn lexeme_at(s: Seq<u8>, p: int) -> Lexeme {
    if !(0 <= p < s.len()) {
        Lexeme { kind: TokenKind::Eof, text: Seq::empty(), end: p }
    } else {
        let c = s[p];
        if c == '(' as u8 {
            spanning(TokenKind::LeftParen, s, p, p + 1)
        } else if c == ')' as u8 {
            spanning(TokenKind::RightParen, s, p, p + 1)
        } else if c == '{' as u8 {
            spanning(TokenKind::LeftBrace, s, p, p + 1)
        } else if c == '}' as u8 {
            spanning(TokenKind::RightBrace, s, p, p + 1)
        } else if c == ';' as u8 {
            spanning(TokenKind::Semicolon, s, p, p + 1)
        } else if c == ',' as u8 {
            spanning(TokenKind::Comma, s, p, p + 1)
        } else if c == '.' as u8 {
            spanning(TokenKind::Dot, s, p, p + 1)
        } else if c == '-' as u8 {
            spanning(TokenKind::Minus, s, p, p + 1)
        } else if c == '+' as u8 {
            spanning(TokenKind::Plus, s, p, p + 1)
        } else if c == '/' as u8 {
            spanning(TokenKind::Slash, s, p, p + 1)
        } else if c == '*' as u8 {
            spanning(TokenKind::Star, s, p, p + 1)
        } else if c == '!' as u8 {
            operator(TokenKind::Bang, TokenKind::BangEqual, s, p)
        } else if c == '=' as u8 {
            operator(TokenKind::Equal, TokenKind::EqualEqual, s, p)
        } else if c == '<' as u8 {
            operator(TokenKind::Less, TokenKind::LessEqual, s, p)
        } else if c == '>' as u8 {
            operator(TokenKind::Greater, TokenKind::GreaterEqual, s, p)
        } else if c == '"' as u8 {
            let close = run_end(s, p + 1, Run::Quoted);
            if close >= s.len() {
                Lexeme { kind: TokenKind::Error, text: unterminated_string(), end: close }
            } else {
                spanning(TokenKind::String, s, p, close + 1)
            }
        } else if is_digit(c) {
            spanning(TokenKind::Number, s, p, number_end(s, p))
        } else if is_alpha(c) {
            let end = run_end(s, p + 1, Run::Word);
            spanning(keyword_kind(s.subrange(p, end)), s, p, end)
        } else {
            Lexeme { kind: TokenKind::Error, text: unexpected_character(), end: p + 1 }
        }
    }
}

/// One call of the scanner: the token found, where it starts and ends, and
/// the line counter after it.
pub ghost struct Scan {
    pub kind: TokenKind,
    pub text: Seq<u8>,
    pub start: int,
    pub end: int,
    pub line: usize,
}

/// What scanning `s` from offset `from` with line counter `line` yields.
pub open spec fn scan(s: Seq<u8>, from: int, line: usize) -> Scan {
    let start = blank_end(s, from);
    let found = lexeme_at(s, start);
    Scan {
        kind: found.kind,
        text: found.text,
        start,
        end: found.end,
        line: line_after(line, newlines(s, from, found.end)),
    }
}

/// A run ends within the text, every byte before its end continues it, and
/// the byte at its end, if there is one, does not.
pub proof fn lemma_run_end(s: Seq<u8>, i: int, run: Run)
    requires
        0 <= i <= s.len(),
    ensures
        i <= run_end(s, i, run) <= s.len(),
        forall|j: int| i <= j < run_end(s, i, run) ==> keeps(run, #[trigger] s[j]),
        run_end(s, i, run) < s.len() ==> !keeps(run, s[run_end(s, i, run)]),
    decreases s.len() - i,
{
    if i < s.len() && keeps(run, s[i]) {
        lemma_run_end(s, i + 1, run);
    }
}


/// Newlines add up over adjacent ranges.
pub proof fn lemma_newlines_split(s: Seq<u8>, a: int, b: int, c: int)
    requires
        a <= b <= c,
    ensures
        newlines(s, a, c) == newlines(s, a, b) + newlines(s, b, c),
    decreases c - b,
{
    if b < c {
        lemma_newlines_split(s, a, b, c - 1);
    }
}

/// A range without a newline byte crosses no line.
pub proof fn lemma_newlines_none(s: Seq<u8>, a: int, b: int)
    requires
        forall|j: int| a <= j < b ==> #[trigger] s[j] != '\n' as u8,
    ensures
        newlines(s, a, b) == 0,
    decreases b - a,
{
    if a < b {
        lemma_newlines_none(s, a, b - 1);
    }
}


/// The bytes of an ASCII string are its characters, one for one.
pub proof fn lemma_ascii_bytes(text: &str)
    requires
        is_ascii_chars(text@),
    ensures
        text.spec_bytes().len() == text@.len(),
        forall|i: int| 0 <= i < text@.len() ==> #[trigger] text.spec_bytes()[i] == text@[i] as u8,
{
    is_ascii_chars_encode_utf8(text@);
}

/// A word of ASCII letters, byte by byte, and its rest from offset `n` on.
proof fn lemma_word(word: &str, n: int, rest: &str)
    requires
        is_ascii_chars(word@),
        0 <= n <= word@.len(),
        rest@ =~= word@.subrange(n, word@.len() as int),
    ensures
        word.spec_bytes().len() == word@.len(),
        forall|i: int| 0 <= i < word@.len() ==> #[trigger] word.spec_bytes()[i] == word@[i] as u8,
        word.spec_bytes().subrange(n, word@.len() as int) == rest.spec_bytes(),
{
    lemma_ascii_bytes(word);
    lemma_ascii_bytes(rest);
    assert(word.spec_bytes().subrange(n, word@.len() as int) =~= rest.spec_bytes());
}

proof fn lemma_spelling_and()
    ensures
        "and".spec_bytes().len() == 3,
        "and".spec_bytes()[0] == 'a' as u8,
        "and".spec_bytes()[1] == 'n' as u8,
        "and".spec_bytes().subrange(1, 3) == "nd".spec_bytes(),
{
    reveal_strlit("and");
    reveal_strlit("nd");
    lemma_word("and", 1, "nd");
}

proof fn lemma_spelling_class()
    ensures
        "class".spec_bytes().len() == 5,
        "class".spec_bytes()[0] == 'c' as u8,
        "class".spec_bytes()[1] == 'l' as u8,
        "class".spec_bytes().subrange(1, 5) == "lass".spec_bytes(),
{
    reveal_strlit("class");
    reveal_strlit("lass");
    lemma_word("class", 1, "lass");
}

proof fn lemma_spelling_else()
    ensures
        "else".spec_bytes().len() == 4,
        "else".spec_bytes()[0] == 'e' as u8,
        "else".spec_bytes()[1] == 'l' as u8,
        "else".spec_bytes().subrange(1, 4) == "lse".spec_bytes(),
{
    reveal_strlit("else");
    reveal_strlit("lse");
    lemma_word("else", 1, "lse");
}

proof fn lemma_spelling_false()
    ensures
        "false".spec_bytes().len() == 5,
        "false".spec_bytes()[0] == 'f' as u8,
        "false".spec_bytes()[1] == 'a' as u8,
        "false".spec_bytes().subrange(2, 5) == "lse".spec_bytes(),
{
    reveal_strlit("false");
    reveal_strlit("lse");
    lemma_word("false", 2, "lse");
}

proof fn lemma_spelling_for()
    ensures
        "for".spec_bytes().len() == 3,
        "for".spec_bytes()[0] == 'f' as u8,
        "for".spec_bytes()[1] == 'o' as u8,
        "for".spec_bytes().subrange(2, 3) == "r".spec_bytes(),
{
    reveal_strlit("for");
    reveal_strlit("r");
    lemma_word("for", 2, "r");
}

proof fn lemma_spelling_fun()
    ensures
        "fun".spec_bytes().len() == 3,
        "fun".spec_bytes()[0] == 'f' as u8,
        "fun".spec_bytes()[1] == 'u' as u8,
        "fun".spec_bytes().subrange(2, 3) == "n".spec_bytes(),
{
    reveal_strlit("fun");
    reveal_strlit("n");
    lemma_word("fun", 2, "n");
}

proof fn lemma_spelling_if()
    ensures
        "if".spec_bytes().len() == 2,
        "if".spec_bytes()[0] == 'i' as u8,
        "if".spec_bytes()[1] == 'f' as u8,
        "if".spec_bytes().subrange(1, 2) == "f".spec_bytes(),
{
    reveal_strlit("if");
    reveal_strlit("f");
    lemma_word("if", 1, "f");
}

proof fn lemma_spelling_nil()
    ensures
        "nil".spec_bytes().len() == 3,
        "nil".spec_bytes()[0] == 'n' as u8,
        "nil".spec_bytes()[1] == 'i' as u8,
        "nil".spec_bytes().subrange(1, 3) == "il".spec_bytes(),
{
    reveal_strlit("nil");
    reveal_strlit("il");
    lemma_word("nil", 1, "il");
}

proof fn lemma_spelling_or()
    ensures
        "or".spec_bytes().len() == 2,
        "or".spec_bytes()[0] == 'o' as u8,
        "or".spec_bytes()[1] == 'r' as u8,
        "or".spec_bytes().subrange(1, 2) == "r".spec_bytes(),
{
    reveal_strlit("or");
    reveal_strlit("r");
    lemma_word("or", 1, "r");
}

proof fn lemma_spelling_print()
    ensures
        "print".spec_bytes().len() == 5,
        "print".spec_bytes()[0] == 'p' as u8,
        "print".spec_bytes()[1] == 'r' as u8,
        "print".spec_bytes().subrange(1, 5) == "rint".spec_bytes(),
{
    reveal_strlit("print");
    reveal_strlit("rint");
    lemma_word("print", 1, "rint");
}

proof fn lemma_spelling_return()
    ensures
        "return".spec_bytes().len() == 6,
        "return".spec_bytes()[0] == 'r' as u8,
        "return".spec_bytes()[1] == 'e' as u8,
        "return".spec_bytes().subrange(1, 6) == "eturn".spec_bytes(),
{
    reveal_strlit("return");
    reveal_strlit("eturn");
    lemma_word("return", 1, "eturn");
}

proof fn lemma_spelling_super()
    ensures
        "super".spec_bytes().len() == 5,
        "super".spec_bytes()[0] == 's' as u8,
        "super".spec_bytes()[1] == 'u' as u8,
        "super".spec_bytes().subrange(1, 5) == "uper".spec_bytes(),
{
    reveal_strlit("super");
    reveal_strlit("uper");
    lemma_word("super", 1, "uper");
}

proof fn lemma_spelling_this()
    ensures
        "this".spec_bytes().len() == 4,
        "this".spec_bytes()[0] == 't' as u8,
        "this".spec_bytes()[1] == 'h' as u8,
        "this".spec_bytes().subrange(2, 4) == "is".spec_bytes(),
{
    reveal_strlit("this");
    reveal_strlit("is");
    lemma_word("this", 2, "is");
}

proof fn lemma_spelling_true()
    ensures
        "true".spec_bytes().len() == 4,
        "true".spec_bytes()[0] == 't' as u8,
        "true".spec_bytes()[1] == 'r' as u8,
        "true".spec_bytes().subrange(2, 4) == "ue".spec_bytes(),
{
    reveal_strlit("true");
    reveal_strlit("ue");
    lemma_word("true", 2, "ue");
}

proof fn lemma_spelling_var()
    ensures
        "var".spec_bytes().len() == 3,
        "var".spec_bytes()[0] == 'v' as u8,
        "var".spec_bytes()[1] == 'a' as u8,
        "var".spec_bytes().subrange(1, 3) == "ar".spec_bytes(),
{
    reveal_strlit("var");
    reveal_strlit("ar");
    lemma_word("var", 1, "ar");
}

proof fn lemma_spelling_while()
    ensures
        "while".spec_bytes().len() == 5,
        "while".spec_bytes()[0] == 'w' as u8,
        "while".spec_bytes()[1] == 'h' as u8,
        "while".spec_bytes().subrange(1, 5) == "hile".spec_bytes(),
{
    reveal_strlit("while");
    reveal_strlit("hile");
    lemma_word("while", 1, "hile");
}

/// How each keyword is spelled: its length, the bytes the scanner
/// dispatches on, and the rest that it then compares.
proof fn lemma_spellings()
    ensures
        "and".spec_bytes().len() == 3,
        "and".spec_bytes()[0] == 'a' as u8,
        "and".spec_bytes().subrange(1, 3) == "nd".spec_bytes(),
        "class".spec_bytes().len() == 5,
        "class".spec_bytes()[0] == 'c' as u8,
        "class".spec_bytes().subrange(1, 5) == "lass".spec_bytes(),
        "else".spec_bytes().len() == 4,
        "else".spec_bytes()[0] == 'e' as u8,
        "else".spec_bytes().subrange(1, 4) == "lse".spec_bytes(),
        "false".spec_bytes().len() == 5,
        "false".spec_bytes()[0] == 'f' as u8,
        "false".spec_bytes()[1] == 'a' as u8,
        "false".spec_bytes().subrange(2, 5) == "lse".spec_bytes(),
        "for".spec_bytes().len() == 3,
        "for".spec_bytes()[0] == 'f' as u8,
        "for".spec_bytes()[1] == 'o' as u8,
        "for".spec_bytes().subrange(2, 3) == "r".spec_bytes(),
        "fun".spec_bytes().len() == 3,
        "fun".spec_bytes()[0] == 'f' as u8,
        "fun".spec_bytes()[1] == 'u' as u8,
        "fun".spec_bytes().subrange(2, 3) == "n".spec_bytes(),
        "if".spec_bytes().len() == 2,
        "if".spec_bytes()[0] == 'i' as u8,
        "if".spec_bytes().subrange(1, 2) == "f".spec_bytes(),
        "nil".spec_bytes().len() == 3,
        "nil".spec_bytes()[0] == 'n' as u8,
        "nil".spec_bytes().subrange(1, 3) == "il".spec_bytes(),
        "or".spec_bytes().len() == 2,
        "or".spec_bytes()[0] == 'o' as u8,
        "or".spec_bytes().subrange(1, 2) == "r".spec_bytes(),
        "print".spec_bytes().len() == 5,
        "print".spec_bytes()[0] == 'p' as u8,
        "print".spec_bytes().subrange(1, 5) == "rint".spec_bytes(),
        "return".spec_bytes().len() == 6,
        "return".spec_bytes()[0] == 'r' as u8,
        "return".spec_bytes().subrange(1, 6) == "eturn".spec_bytes(),
        "super".spec_bytes().len() == 5,
        "super".spec_bytes()[0] == 's' as u8,
        "super".spec_bytes().subrange(1, 5) == "uper".spec_bytes(),
        "this".spec_bytes().len() == 4,
        "this".spec_bytes()[0] == 't' as u8,
        "this".spec_bytes()[1] == 'h' as u8,
        "this".spec_bytes().subrange(2, 4) == "is".spec_bytes(),
        "true".spec_bytes().len() == 4,
        "true".spec_bytes()[0] == 't' as u8,
        "true".spec_bytes()[1] == 'r' as u8,
        "true".spec_bytes().subrange(2, 4) == "ue".spec_bytes(),
        "var".spec_bytes().len() == 3,
        "var".spec_bytes()[0] == 'v' as u8,
        "var".spec_bytes().subrange(1, 3) == "ar".spec_bytes(),
        "while".spec_bytes().len() == 5,
        "while".spec_bytes()[0] == 'w' as u8,
        "while".spec_bytes().subrange(1, 5) == "hile".spec_bytes(),
{
    lemma_spelling_and();
    lemma_spelling_class();
    lemma_spelling_else();
    lemma_spelling_false();
    lemma_spelling_for();
    lemma_spelling_fun();
    lemma_spelling_if();
    lemma_spelling_nil();
    lemma_spelling_or();
    lemma_spelling_print();
    lemma_spelling_return();
    lemma_spelling_super();
    lemma_spelling_this();
    lemma_spelling_true();
    lemma_spelling_var();
    lemma_spelling_while();
}

/// `kind` where the text from offset `n` on is `rest`, else `Identifier`.
pub open spec fn kind_if_rest(text: Seq<u8>, n: int, rest: Seq<u8>, kind: TokenKind) -> TokenKind {
    if text.subrange(n, text.len() as int) == rest {
        kind
    } else {
        TokenKind::Identifier
    }
}

/// The keyword table as the scanner walks it: by first byte, for `f` and
/// `t` by second byte, then by the rest of the word.
pub open spec fn keyword_dispatch(text: Seq<u8>) -> TokenKind {
    let c = text[0];
    if c == 'a' as u8 {
        kind_if_rest(text, 1, "nd".spec_bytes(), TokenKind::And)
    } else if c == 'c' as u8 {
        kind_if_rest(text, 1, "lass".spec_bytes(), TokenKind::Class)
    } else if c == 'e' as u8 {
        kind_if_rest(text, 1, "lse".spec_bytes(), TokenKind::Else)
    } else if c == 'f' as u8 {
        if text.len() > 1 {
            let d = text[1];
            if d == 'a' as u8 {
                kind_if_rest(text, 2, "lse".spec_bytes(), TokenKind::False)
            } else if d == 'o' as u8 {
                kind_if_rest(text, 2, "r".spec_bytes(), TokenKind::For)
            } else if d == 'u' as u8 {
                kind_if_rest(text, 2, "n".spec_bytes(), TokenKind::Fun)
            } else {
                TokenKind::Identifier
            }
        } else {
            TokenKind::Identifier
        }
    } else if c == 'i' as u8 {
        kind_if_rest(text, 1, "f".spec_bytes(), TokenKind::If)
    } else if c == 'n' as u8 {
        kind_if_rest(text, 1, "il".spec_bytes(), TokenKind::Nil)
    } else if c == 'o' as u8 {
        kind_if_rest(text, 1, "r".spec_bytes(), TokenKind::Or)
    } else if c == 'p' as u8 {
        kind_if_rest(text, 1, "rint".spec_bytes(), TokenKind::Print)
    } else if c == 'r' as u8 {
        kind_if_rest(text, 1, "eturn".spec_bytes(), TokenKind::Return)
    } else if c == 's' as u8 {
        kind_if_rest(text, 1, "uper".spec_bytes(), TokenKind::Super)
    } else if c == 't' as u8 {
        if text.len() > 1 {
            let d = text[1];
            if d == 'h' as u8 {
                kind_if_rest(text, 2, "is".spec_bytes(), TokenKind::This)
            } else if d == 'r' as u8 {
                kind_if_rest(text, 2, "ue".spec_bytes(), TokenKind::True)
            } else {
                TokenKind::Identifier
            }
        } else {
            TokenKind::Identifier
        }
    } else if c == 'v' as u8 {
        kind_if_rest(text, 1, "ar".spec_bytes(), TokenKind::Var)
    } else if c == 'w' as u8 {
        kind_if_rest(text, 1, "hile".spec_bytes(), TokenKind::While)
    } else {
        TokenKind::Identifier
    }
}

/// A text is a given word exactly when it starts with the word's first `n`
/// bytes and goes on with the word's rest.
proof fn lemma_word_by_rest(text: Seq<u8>, n: int, word: Seq<u8>)
    requires
        1 <= n <= 2,
        n <= word.len(),
    ensures
        text == word <==> {
            &&& text.len() >= n
            &&& text[0] == word[0]
            &&& n == 2 ==> text[1] == word[1]
            &&& text.subrange(n, text.len() as int) == word.subrange(n, word.len() as int)
        },
{
    if text.len() >= n && text[0] == word[0] && (n == 2 ==> text[1] == word[1]) && text.subrange(
        n,
        text.len() as int,
    ) == word.subrange(n, word.len() as int) {
        let a = text.subrange(n, text.len() as int);
        let b = word.subrange(n, word.len() as int);
        assert(text.len() == word.len()) by {
            assert(a.len() == b.len());
        }
        assert forall|i: int| 0 <= i < text.len() implies text[i] == word[i] by {
            if i >= n {
                assert(a[i - n] == b[i - n]);
            }
        }
        assert(text =~= word);
    }
}

/// Walking the table by leading bytes finds what the table says.
pub proof fn lemma_keyword_dispatch(text: Seq<u8>)
    requires
        text.len() > 0,
    ensures
        keyword_dispatch(text) == keyword_kind(text),
{
    lemma_spellings();
    lemma_word_by_rest(text, 1, "and".spec_bytes());
    lemma_word_by_rest(text, 1, "class".spec_bytes());
    lemma_word_by_rest(text, 1, "else".spec_bytes());
    lemma_word_by_rest(text, 2, "false".spec_bytes());
    lemma_word_by_rest(text, 2, "for".spec_bytes());
    lemma_word_by_rest(text, 2, "fun".spec_bytes());
    lemma_word_by_rest(text, 1, "if".spec_bytes());
    lemma_word_by_rest(text, 1, "nil".spec_bytes());
    lemma_word_by_rest(text, 1, "or".spec_bytes());
    lemma_word_by_rest(text, 1, "print".spec_bytes());
    lemma_word_by_rest(text, 1, "return".spec_bytes());
    lemma_word_by_rest(text, 1, "super".spec_bytes());
    lemma_word_by_rest(text, 2, "this".spec_bytes());
    lemma_word_by_rest(text, 2, "true".spec_bytes());
    lemma_word_by_rest(text, 1, "var".spec_bytes());
    lemma_word_by_rest(text, 1, "while".spec_bytes());
}

/// A token that starts inside the text is at least one byte long and ends
/// inside the text.
pub proof fn lemma_lexeme_end(s: Seq<u8>, p: int)
    requires
        0 <= p < s.len(),
    ensures
        p < lexeme_at(s, p).end <= s.len(),
{
    lemma_run_end(s, p + 1, Run::Quoted);
    lemma_run_end(s, p + 1, Run::Word);
    lemma_run_end(s, p + 1, Run::Digits);
    let whole = run_end(s, p, Run::Digits);
    if is_digit(s[p]) {
        assert(whole == run_end(s, p + 1, Run::Digits));
        if whole + 1 <= s.len() {
            lemma_run_end(s, whole + 1, Run::Digits);
        }
    }
}


/// Skipping blanks ends inside the text, on a byte that is neither blank
/// nor the start of a comment, and never moves backwards.
pub proof fn lemma_blank_end(s: Seq<u8>, i: int)
    requires
        0 <= i <= s.len(),
    ensures
        i <= blank_end(s, i) <= s.len(),
        !is_blank(byte_at(s, blank_end(s, i))),
        !starts_comment(s, blank_end(s, i)),
    decreases s.len() - i,
{
    if i < s.len() {
        if is_blank(s[i]) {
            lemma_blank_end(s, i + 1);
        } else if starts_comment(s, i) {
            lemma_run_end(s, i + 2, Run::Line);
            lemma_blank_end(s, run_end(s, i + 2, Run::Line));
        }
    }
}

/// Counting lines in two stretches is counting them in one.
pub proof fn lemma_line_after_twice(line: usize, a: nat, b: nat)
    ensures
        line_after(line_after(line, a), b) == line_after(line, a + b),
{
}

/// Every call of the scanner reads at least one byte, or finds the end of
/// the text and reports `Eof`; and it reports `Eof` only at the end.
pub proof fn law_progress(s: Seq<u8>, from: int, line: usize)
    requires
        0 <= from <= s.len(),
    ensures
        from <= scan(s, from, line).start <= scan(s, from, line).end <= s.len(),
        scan(s, from, line).kind == TokenKind::Eof <==> scan(s, from, line).start == s.len(),
        scan(s, from, line).kind != TokenKind::Eof ==> from < scan(s, from, line).end,
        scan(s, from, line).kind == TokenKind::Eof ==> scan(s, from, line).end == s.len(),
{
    lemma_blank_end(s, from);
    let p = blank_end(s, from);
    if p < s.len() {
        lemma_lexeme_end(s, p);
    }
}

/// At the end of the text the scanner reports `Eof`, and does so again
/// however often it is called.
pub proof fn law_eof_again(s: Seq<u8>, line: usize)
    ensures
        scan(s, s.len() as int, line).kind == TokenKind::Eof,
        scan(s, s.len() as int, line).text == Seq::<u8>::empty(),
        scan(s, s.len() as int, line).end == s.len(),
        scan(s, s.len() as int, line).line == line,
{
}

/// The kind of the operator that starts with byte `c`: alone, and with an
/// `=` behind it.
pub open spec fn operator_kinds(c: u8) -> (TokenKind, TokenKind) {
    if c == '!' as u8 {
        (TokenKind::Bang, TokenKind::BangEqual)
    } else if c == '=' as u8 {
        (TokenKind::Equal, TokenKind::EqualEqual)
    } else if c == '<' as u8 {
        (TokenKind::Less, TokenKind::LessEqual)
    } else {
        (TokenKind::Greater, TokenKind::GreaterEqual)
    }
}

/// Where the text goes on with `!`, `=`, `<` or `>`, the scanner reports
/// the two-byte operator and reads two bytes if an `=` follows, and else
/// the one-byte operator and reads one byte. The line counter stays.
pub proof fn law_operator(s: Seq<u8>, p: int, line: usize)
    requires
        0 <= p < s.len(),
        s[p] == '!' as u8 || s[p] == '=' as u8 || s[p] == '<' as u8 || s[p] == '>' as u8,
    ensures
        scan(s, p, line).start == p,
        scan(s, p, line).line == line,
        byte_at(s, p + 1) == '=' as u8 ==> {
            &&& scan(s, p, line).kind == operator_kinds(s[p]).1
            &&& scan(s, p, line).end == p + 2
            &&& scan(s, p, line).text == s.subrange(p, p + 2)
        },
        byte_at(s, p + 1) != '=' as u8 ==> {
            &&& scan(s, p, line).kind == operator_kinds(s[p]).0
            &&& scan(s, p, line).end == p + 1
            &&& scan(s, p, line).text == s.subrange(p, p + 1)
        },
{
    assert(newlines(s, p, p + 1) == 0) by {
        assert(newlines(s, p, p) == 0);
    }
    assert(newlines(s, p, p + 2) == newlines(s, p, p + 1) + if s[p + 1] == '\n' as u8 {
        1nat
    } else {
        0nat
    });
}

/// Where the text goes on with a single-byte token, the scanner reports
/// it and reads one byte.
pub proof fn law_punctuation(s: Seq<u8>, p: int, line: usize)
    requires
        0 <= p < s.len(),
        single_kind(s[p]) is Some,
    ensures
        scan(s, p, line).kind == single_kind(s[p])->Some_0,
        scan(s, p, line).start == p,
        scan(s, p, line).end == p + 1,
        scan(s, p, line).text == s.subrange(p, p + 1),
        scan(s, p, line).line == line,
{
    assert(newlines(s, p, p + 1) == 0) by {
        assert(newlines(s, p, p) == 0);
    }
    if s[p] == '/' as u8 {
        assert(!starts_comment(s, p));
    }
}

/// The kind of a token that is a single byte whatever follows. A `/` is
/// one where no second `/` follows, which would start a comment.
pub open spec fn single_kind(c: u8) -> Option<TokenKind> {
    if c == '(' as u8 {
        Some(TokenKind::LeftParen)
    } else if c == ')' as u8 {
        Some(TokenKind::RightParen)
    } else if c == '{' as u8 {
        Some(TokenKind::LeftBrace)
    } else if c == '}' as u8 {
        Some(TokenKind::RightBrace)
    } else if c == ';' as u8 {
        Some(TokenKind::Semicolon)
    } else if c == ',' as u8 {
        Some(TokenKind::Comma)
    } else if c == '.' as u8 {
        Some(TokenKind::Dot)
    } else if c == '-' as u8 {
        Some(TokenKind::Minus)
    } else if c == '+' as u8 {
        Some(TokenKind::Plus)
    } else if c == '*' as u8 {
        Some(TokenKind::Star)
    } else {
        None
    }
}

/// A line comment yields no token. Where a newline ends it, scanning from
/// the comment is scanning from behind that newline, one line further on;
/// where the text ends first, the scanner reports `Eof` on the same line.
pub proof fn law_comment(s: Seq<u8>, p: int, line: usize)
    requires
        0 <= p,
        starts_comment(s, p),
    ensures
        ({
            let end = run_end(s, p + 2, Run::Line);
            &&& p + 2 <= end <= s.len()
            &&& end < s.len() ==> s[end] == '\n' as u8 && scan(s, p, line) == scan(
                s,
                end + 1,
                line_after(line, 1),
            )
            &&& end == s.len() ==> scan(s, p, line).kind == TokenKind::Eof && scan(
                s,
                p,
                line,
            ).line == line
        }),
{
    let end = run_end(s, p + 2, Run::Line);
    lemma_run_end(s, p + 2, Run::Line);
    assert(blank_end(s, p) == blank_end(s, end));
    assert(newlines(s, p, end) == 0) by {
        assert forall|j: int| p <= j < end implies #[trigger] s[j] != '\n' as u8 by {
            if j >= p + 2 {
                assert(keeps(Run::Line, s[j]));
            }
        }
        lemma_newlines_none(s, p, end);
    }
    if end < s.len() {
        assert(blank_end(s, end) == blank_end(s, end + 1));
        lemma_blank_end(s, end + 1);
        let start = blank_end(s, end + 1);
        let found = lexeme_at(s, start);
        if start < s.len() {
            lemma_lexeme_end(s, start);
        }
        lemma_newlines_split(s, p, end + 1, found.end);
        assert(newlines(s, p, end + 1) == 1);
        lemma_line_after_twice(line, 1, newlines(s, end + 1, found.end));
    }
}

/// A string without its closing quote yields one error token, which takes
/// the rest of the text: the next token is `Eof`.
pub proof fn law_unterminated_string(s: Seq<u8>, p: int, line: usize)
    requires
        0 <= p < s.len(),
        s[p] == '"' as u8,
        forall|j: int| p < j < s.len() ==> s[j] != '"' as u8,
    ensures
        scan(s, p, line).kind == TokenKind::Error,
        scan(s, p, line).text == unterminated_string(),
        scan(s, p, line).start == p,
        scan(s, p, line).end == s.len(),
        scan(s, scan(s, p, line).end, scan(s, p, line).line).kind == TokenKind::Eof,
{
    lemma_run_end(s, p + 1, Run::Quoted);
    let close = run_end(s, p + 1, Run::Quoted);
    if close < s.len() {
        assert(!keeps(Run::Quoted, s[close]));
    }
}

/// A string with its closing quote yields a token that spans both quotes.
pub proof fn law_string(s: Seq<u8>, p: int, close: int, line: usize)
    requires
        0 <= p < close < s.len(),
        s[p] == '"' as u8,
        s[close] == '"' as u8,
        forall|j: int| p < j < close ==> s[j] != '"' as u8,
    ensures
        scan(s, p, line).kind == TokenKind::String,
        scan(s, p, line).text == s.subrange(p, close + 1),
        scan(s, p, line).end == close + 1,
        scan(s, p, line).line == line_after(line, newlines(s, p, close)),
{
    lemma_run_end(s, p + 1, Run::Quoted);
    let found = run_end(s, p + 1, Run::Quoted);
    if found < close {
        assert(keeps(Run::Quoted, s[found]));
    }
    if found > close {
        assert(keeps(Run::Quoted, s[close]));
    }
}

} // verus!
