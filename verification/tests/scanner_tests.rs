use lox::scanner::{Scanner, Token, TokenKind};

fn scan_all(source: &[u8]) -> Vec<Token> {
    let mut scanner = Scanner::new(source);
    let mut tokens = Vec::new();
    loop {
        let token = scanner.scan_token();
        let done = token.kind == TokenKind::Eof;
        tokens.push(token);
        if done {
            return tokens;
        }
        assert!(tokens.len() <= source.len() + 1);
    }
}

fn kinds(source: &[u8]) -> Vec<TokenKind> {
    scan_all(source).iter().map(|token| token.kind).collect()
}

fn single(source: &[u8]) -> Token {
    let tokens = scan_all(source);
    assert_eq!(tokens.len(), 2, "one token and Eof");
    tokens[0].clone()
}

#[test]
fn empty_source_is_eof_on_line_one() {
    let tokens = scan_all(b"");
    assert_eq!(tokens.len(), 1);
    assert_eq!(tokens[0].kind, TokenKind::Eof);
    assert_eq!(tokens[0].lexeme, b"".to_vec());
    assert_eq!(tokens[0].line, 1);
}

#[test]
fn eof_is_reported_again() {
    let mut scanner = Scanner::new(b"x");
    assert_eq!(scanner.scan_token().kind, TokenKind::Identifier);
    for _ in 0..3 {
        let token = scanner.scan_token();
        assert_eq!(token.kind, TokenKind::Eof);
        assert_eq!(token.lexeme, Vec::<u8>::new());
        assert_eq!(token.line, 1);
    }
}

#[test]
fn single_character_tokens() {
    assert_eq!(
        kinds(b"(){};,.-+/*"),
        vec![
            TokenKind::LeftParen,
            TokenKind::RightParen,
            TokenKind::LeftBrace,
            TokenKind::RightBrace,
            TokenKind::Semicolon,
            TokenKind::Comma,
            TokenKind::Dot,
            TokenKind::Minus,
            TokenKind::Plus,
            TokenKind::Slash,
            TokenKind::Star,
            TokenKind::Eof,
        ]
    );
}

#[test]
fn one_character_operators_consume_one_byte() {
    for (source, kind) in [
        (&b"!"[..], TokenKind::Bang),
        (&b"="[..], TokenKind::Equal),
        (&b"<"[..], TokenKind::Less),
        (&b">"[..], TokenKind::Greater),
    ] {
        let token = single(source);
        assert_eq!(token.kind, kind);
        assert_eq!(token.lexeme, source.to_vec());
    }
}

#[test]
fn two_character_operators_consume_two_bytes() {
    for (source, kind) in [
        (&b"!="[..], TokenKind::BangEqual),
        (&b"=="[..], TokenKind::EqualEqual),
        (&b"<="[..], TokenKind::LessEqual),
        (&b">="[..], TokenKind::GreaterEqual),
    ] {
        let token = single(source);
        assert_eq!(token.kind, kind);
        assert_eq!(token.lexeme, source.to_vec());
    }
}

#[test]
fn operator_lookahead_takes_only_an_equal_sign() {
    assert_eq!(
        kinds(b"!<"),
        vec![TokenKind::Bang, TokenKind::Less, TokenKind::Eof]
    );
    assert_eq!(
        kinds(b"==="),
        vec![TokenKind::EqualEqual, TokenKind::Equal, TokenKind::Eof]
    );
    assert_eq!(
        kinds(b"<=>"),
        vec![TokenKind::LessEqual, TokenKind::Greater, TokenKind::Eof]
    );
}

#[test]
fn comment_yields_no_token_and_one_line() {
    let tokens = scan_all(b"// x\n");
    assert_eq!(tokens.len(), 1);
    assert_eq!(tokens[0].kind, TokenKind::Eof);
    assert_eq!(tokens[0].line, 2);
}

#[test]
fn comment_at_end_of_input_stays_on_its_line() {
    let tokens = scan_all(b"a // rest");
    assert_eq!(tokens.len(), 2);
    assert_eq!(tokens[0].kind, TokenKind::Identifier);
    assert_eq!(tokens[1].kind, TokenKind::Eof);
    assert_eq!(tokens[1].line, 1);
}

#[test]
fn slash_alone_is_a_token() {
    assert_eq!(
        kinds(b"a / b"),
        vec![
            TokenKind::Identifier,
            TokenKind::Slash,
            TokenKind::Identifier,
            TokenKind::Eof
        ]
    );
}

#[test]
fn whitespace_is_skipped_and_newlines_are_counted() {
    let tokens = scan_all(b" \t\r\n\n  x\n y");
    assert_eq!(tokens.len(), 3);
    assert_eq!(tokens[0].lexeme, b"x".to_vec());
    assert_eq!(tokens[0].line, 3);
    assert_eq!(tokens[1].lexeme, b"y".to_vec());
    assert_eq!(tokens[1].line, 4);
    assert_eq!(tokens[2].line, 4);
}

#[test]
fn unterminated_string_is_one_error_token_to_the_end() {
    let mut scanner = Scanner::new(b"\"abc def");
    let token = scanner.scan_token();
    assert_eq!(token.kind, TokenKind::Error);
    assert_eq!(token.lexeme, b"Unterminated string.".to_vec());
    assert_eq!(token.line, 1);
    let next = scanner.scan_token();
    assert_eq!(next.kind, TokenKind::Eof);
}

#[test]
fn unterminated_string_counts_its_lines() {
    let tokens = scan_all(b"\"a\nb\nc");
    assert_eq!(tokens.len(), 2);
    assert_eq!(tokens[0].kind, TokenKind::Error);
    assert_eq!(tokens[0].line, 3);
}

#[test]
fn string_token_spans_both_quotes() {
    let token = single(b"\"hi\"");
    assert_eq!(token.kind, TokenKind::String);
    assert_eq!(token.lexeme, b"\"hi\"".to_vec());
}

#[test]
fn string_may_span_lines() {
    let tokens = scan_all(b"\"a\nb\" x");
    assert_eq!(tokens[0].kind, TokenKind::String);
    assert_eq!(tokens[0].lexeme, b"\"a\nb\"".to_vec());
    assert_eq!(tokens[0].line, 2);
    assert_eq!(tokens[1].line, 2);
}

#[test]
fn empty_string_literal() {
    let token = single(b"\"\"");
    assert_eq!(token.kind, TokenKind::String);
    assert_eq!(token.lexeme, b"\"\"".to_vec());
}

#[test]
fn numbers() {
    for source in [&b"0"[..], b"123", b"12.5", b"0.001"] {
        let token = single(source);
        assert_eq!(token.kind, TokenKind::Number);
        assert_eq!(token.lexeme, source.to_vec());
    }
}

#[test]
fn number_takes_no_trailing_dot() {
    let tokens = scan_all(b"12.");
    assert_eq!(tokens[0].kind, TokenKind::Number);
    assert_eq!(tokens[0].lexeme, b"12".to_vec());
    assert_eq!(tokens[1].kind, TokenKind::Dot);
}

#[test]
fn number_takes_no_leading_dot() {
    let tokens = scan_all(b".5");
    assert_eq!(tokens[0].kind, TokenKind::Dot);
    assert_eq!(tokens[1].kind, TokenKind::Number);
    assert_eq!(tokens[1].lexeme, b"5".to_vec());
}

#[test]
fn number_takes_one_fraction_only() {
    let tokens = scan_all(b"1.2.3");
    assert_eq!(tokens[0].lexeme, b"1.2".to_vec());
    assert_eq!(tokens[1].kind, TokenKind::Dot);
    assert_eq!(tokens[2].lexeme, b"3".to_vec());
}

#[test]
fn number_has_no_exponent() {
    let tokens = scan_all(b"1e5");
    assert_eq!(tokens[0].kind, TokenKind::Number);
    assert_eq!(tokens[0].lexeme, b"1".to_vec());
    assert_eq!(tokens[1].kind, TokenKind::Identifier);
    assert_eq!(tokens[1].lexeme, b"e5".to_vec());
}

#[test]
fn keywords() {
    for (source, kind) in [
        (&b"and"[..], TokenKind::And),
        (b"class", TokenKind::Class),
        (b"else", TokenKind::Else),
        (b"false", TokenKind::False),
        (b"for", TokenKind::For),
        (b"fun", TokenKind::Fun),
        (b"if", TokenKind::If),
        (b"nil", TokenKind::Nil),
        (b"or", TokenKind::Or),
        (b"print", TokenKind::Print),
        (b"return", TokenKind::Return),
        (b"super", TokenKind::Super),
        (b"this", TokenKind::This),
        (b"true", TokenKind::True),
        (b"var", TokenKind::Var),
        (b"while", TokenKind::While),
    ] {
        let token = single(source);
        assert_eq!(token.kind, kind);
        assert_eq!(token.lexeme, source.to_vec());
    }
}

#[test]
fn keyword_for_and_this() {
    assert_eq!(single(b"for").kind, TokenKind::For);
    assert_eq!(single(b"this").kind, TokenKind::This);
}

#[test]
fn keyword_prefixes_are_identifiers() {
    assert_eq!(single(b"thisvar").kind, TokenKind::Identifier);
    assert_eq!(single(b"forest").kind, TokenKind::Identifier);
}

#[test]
fn near_keywords_are_identifiers() {
    for source in [
        &b"f"[..], b"t", b"fo", b"fu", b"fa", b"th", b"tr", b"fx", b"tx", b"an", b"andy", b"nill",
        b"i", b"iff", b"o", b"orr", b"prin", b"printer", b"retur", b"su", b"va", b"whil", b"_for",
        b"For", b"classy", b"els", b"fals", b"falsey", b"tru", b"truer", b"thi",
    ] {
        let token = single(source);
        assert_eq!(token.kind, TokenKind::Identifier, "{:?}", source);
        assert_eq!(token.lexeme, source.to_vec());
    }
}

#[test]
fn identifiers_take_letters_digits_and_underscores() {
    let token = single(b"_a1_B2");
    assert_eq!(token.kind, TokenKind::Identifier);
    assert_eq!(token.lexeme, b"_a1_B2".to_vec());
}

#[test]
fn unexpected_character_is_an_error_token_of_one_byte() {
    let tokens = scan_all(b"@x");
    assert_eq!(tokens[0].kind, TokenKind::Error);
    assert_eq!(tokens[0].lexeme, b"Unexpected character.".to_vec());
    assert_eq!(tokens[1].kind, TokenKind::Identifier);
    assert_eq!(tokens[1].lexeme, b"x".to_vec());
}

#[test]
fn nul_byte_in_source_is_unexpected() {
    let tokens = scan_all(b"\0");
    assert_eq!(tokens[0].kind, TokenKind::Error);
    assert_eq!(tokens[1].kind, TokenKind::Eof);
}

#[test]
fn every_call_makes_progress() {
    let source = b"var x = 1; // c\nprint \"s\" <= @ 1.5.";
    let tokens = scan_all(source);
    assert!(tokens.len() <= source.len() + 1);
    assert_eq!(tokens.last().map(|token| token.kind), Some(TokenKind::Eof));
}

#[test]
fn scans_a_declaration_and_a_print() {
    let tokens = scan_all(b"var a = \"hi\"; print a;");
    let expected: Vec<(TokenKind, &[u8])> = vec![
        (TokenKind::Var, b"var"),
        (TokenKind::Identifier, b"a"),
        (TokenKind::Equal, b"="),
        (TokenKind::String, b"\"hi\""),
        (TokenKind::Semicolon, b";"),
        (TokenKind::Print, b"print"),
        (TokenKind::Identifier, b"a"),
        (TokenKind::Semicolon, b";"),
        (TokenKind::Eof, b""),
    ];
    assert_eq!(tokens.len(), expected.len());
    for (token, (kind, lexeme)) in tokens.iter().zip(expected) {
        assert_eq!(token.kind, kind);
        assert_eq!(token.lexeme, lexeme.to_vec());
        assert_eq!(token.line, 1);
    }
}

#[test]
fn default_token_is_an_empty_error_on_line_zero() {
    let token = Token::default();
    assert_eq!(token.kind, TokenKind::Error);
    assert_eq!(token.lexeme, Vec::<u8>::new());
    assert_eq!(token.line, 0);
}

#[test]
fn clone_keeps_a_token() {
    let token = single(b"name");
    let copy = token.clone();
    assert_eq!(copy.kind, token.kind);
    assert_eq!(copy.lexeme, token.lexeme);
    assert_eq!(copy.line, token.line);
}
