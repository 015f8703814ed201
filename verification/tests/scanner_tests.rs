use language::scanner::Scanner;
use language::token::{Token, TokenType};

fn scan_all(source: &str) -> Vec<(TokenType, String, i32)> {
    let mut scanner = Scanner::new(String::from(source));
    let mut tokens = Vec::new();
    loop {
        let token = scanner.scan_token();
        let done = token.token_type == TokenType::EOF;
        tokens.push((token.token_type, token.lexme, token.line));
        if done {
            return tokens;
        }
    }
}

fn kinds(source: &str) -> Vec<TokenType> {
    scan_all(source).into_iter().map(|token| token.0).collect()
}

fn token(kind: TokenType, lexeme: &str, line: i32) -> (TokenType, String, i32) {
    (kind, String::from(lexeme), line)
}

#[test]
fn token_new_keeps_its_parts() {
    let token = Token::new(TokenType::Plus, String::from("+"), 12);
    assert_eq!(token.token_type, TokenType::Plus);
    assert_eq!(token.lexme, "+");
    assert_eq!(token.line, 12);
}

#[test]
fn token_kinds_are_numbered_densely() {
    assert_eq!(usize::from(TokenType::LeftParen), 0);
    assert_eq!(usize::from(TokenType::RightParen), 1);
    assert_eq!(usize::from(TokenType::Plus), 8);
    assert_eq!(usize::from(TokenType::Minus), 9);
    assert_eq!(usize::from(TokenType::Star), 10);
    assert_eq!(usize::from(TokenType::Slash), 11);
    assert_eq!(usize::from(TokenType::Semicolon), 12);
    assert_eq!(usize::from(TokenType::XOR), 26);
    assert_eq!(usize::from(TokenType::Identifier), 27);
    assert_eq!(usize::from(TokenType::String), 28);
    assert_eq!(usize::from(TokenType::Number), 29);
    assert_eq!(usize::from(TokenType::Super), 43);
    assert_eq!(usize::from(TokenType::Error), 44);
    assert_eq!(usize::from(TokenType::EOF), 45);
    assert_eq!(language::token::TOKEN_KINDS, 46);
}

#[test]
fn empty_source_is_eof() {
    assert_eq!(scan_all(""), vec![token(TokenType::EOF, "", 1)]);
}

#[test]
fn eof_repeats() {
    let mut scanner = Scanner::new(String::from("1"));
    assert_eq!(scanner.scan_token().token_type, TokenType::Number);
    for _ in 0..5 {
        let token = scanner.scan_token();
        assert_eq!(token.token_type, TokenType::EOF);
        assert_eq!(token.lexme, "");
        assert_eq!(token.line, 1);
    }
}

#[test]
fn blanks_are_skipped() {
    assert_eq!(scan_all("  \t\r  "), vec![token(TokenType::EOF, "", 1)]);
    assert_eq!(
        scan_all(" \t1\r +  2 "),
        vec![
            token(TokenType::Number, "1", 1),
            token(TokenType::Plus, "+", 1),
            token(TokenType::Number, "2", 1),
            token(TokenType::EOF, "", 1),
        ]
    );
}

#[test]
fn punctuation() {
    assert_eq!(
        kinds("(){}[];.,+-*/"),
        vec![
            TokenType::LeftParen,
            TokenType::RightParen,
            TokenType::LeftBrace,
            TokenType::RightBrace,
            TokenType::LeftBracket,
            TokenType::RightBracket,
            TokenType::Semicolon,
            TokenType::Dot,
            TokenType::Comma,
            TokenType::Plus,
            TokenType::Minus,
            TokenType::Star,
            TokenType::Slash,
            TokenType::EOF,
        ]
    );
}

#[test]
fn one_and_two_character_operators() {
    assert_eq!(
        scan_all("! != = == < <= > >="),
        vec![
            token(TokenType::Bang, "!", 1),
            token(TokenType::BangEq, "!=", 1),
            token(TokenType::EQ, "=", 1),
            token(TokenType::EqEq, "==", 1),
            token(TokenType::Lt, "<", 1),
            token(TokenType::Le, "<=", 1),
            token(TokenType::Gt, ">", 1),
            token(TokenType::Ge, ">=", 1),
            token(TokenType::EOF, "", 1),
        ]
    );
    assert_eq!(
        kinds("!===<==>"),
        vec![
            TokenType::BangEq,
            TokenType::EqEq,
            TokenType::Le,
            TokenType::EQ,
            TokenType::Gt,
            TokenType::EOF
        ]
    );
    assert_eq!(kinds("!"), vec![TokenType::Bang, TokenType::EOF]);
    assert_eq!(kinds("<"), vec![TokenType::Lt, TokenType::EOF]);
}

#[test]
fn numbers() {
    assert_eq!(
        scan_all("1 23 4.5 007 3.14159 12."),
        vec![
            token(TokenType::Number, "1", 1),
            token(TokenType::Number, "23", 1),
            token(TokenType::Number, "4.5", 1),
            token(TokenType::Number, "007", 1),
            token(TokenType::Number, "3.14159", 1),
            token(TokenType::Number, "12", 1),
            token(TokenType::Dot, ".", 1),
            token(TokenType::EOF, "", 1),
        ]
    );
    assert_eq!(
        scan_all("1.2.3"),
        vec![
            token(TokenType::Number, "1.2", 1),
            token(TokenType::Dot, ".", 1),
            token(TokenType::Number, "3", 1),
            token(TokenType::EOF, "", 1),
        ]
    );
    assert_eq!(
        scan_all(".5"),
        vec![token(TokenType::Dot, ".", 1), token(TokenType::Number, "5", 1), token(TokenType::EOF, "", 1)]
    );
    assert_eq!(
        scan_all("1e5"),
        vec![
            token(TokenType::Number, "1", 1),
            token(TokenType::Identifier, "e5", 1),
            token(TokenType::EOF, "", 1)
        ]
    );
}

#[test]
fn keywords() {
    assert_eq!(
        kinds("class else if null return super while false fun for var val"),
        vec![
            TokenType::Class,
            TokenType::Else,
            TokenType::If,
            TokenType::Null,
            TokenType::Return,
            TokenType::Super,
            TokenType::While,
            TokenType::False,
            TokenType::Fun,
            TokenType::For,
            TokenType::Var,
            TokenType::Val,
            TokenType::EOF,
        ]
    );
}

#[test]
fn words_that_are_no_keywords() {
    let words = [
        "c", "clas", "classes", "classy", "Class", "e", "els", "elsewhere", "i", "iff", "nul", "nulls", "retur",
        "returns", "supe", "supers", "whil", "whiles", "f", "fa", "fals", "falsey", "fu", "funs", "fo", "fort",
        "fx", "v", "va", "vax", "variable", "vars", "value", "vals", "vbr", "true", "this", "x", "abc123", "a1b2",
        "Z",
    ];
    for word in words {
        assert_eq!(
            scan_all(word),
            vec![token(TokenType::Identifier, word, 1), token(TokenType::EOF, "", 1)],
            "{}",
            word
        );
    }
}

#[test]
fn identifier_stops_at_other_characters() {
    assert_eq!(
        scan_all("foo_bar"),
        vec![
            token(TokenType::Identifier, "foo", 1),
            token(TokenType::Error, "Unexpected character: _", 1),
            token(TokenType::Identifier, "bar", 1),
            token(TokenType::EOF, "", 1),
        ]
    );
    assert_eq!(
        scan_all("if(x)"),
        vec![
            token(TokenType::If, "if", 1),
            token(TokenType::LeftParen, "(", 1),
            token(TokenType::Identifier, "x", 1),
            token(TokenType::RightParen, ")", 1),
            token(TokenType::EOF, "", 1),
        ]
    );
}

#[test]
fn newline_is_a_statement_end_and_counts_lines() {
    assert_eq!(
        scan_all("1\n2\n\n3"),
        vec![
            token(TokenType::Number, "1", 1),
            token(TokenType::Semicolon, "\n", 2),
            token(TokenType::Number, "2", 2),
            token(TokenType::Semicolon, "\n", 3),
            token(TokenType::Semicolon, "\n", 4),
            token(TokenType::Number, "3", 4),
            token(TokenType::EOF, "", 4),
        ]
    );
    assert_eq!(
        scan_all(";"),
        vec![token(TokenType::Semicolon, ";", 1), token(TokenType::EOF, "", 1)]
    );
}

#[test]
fn comments_run_to_the_end_of_the_line() {
    assert_eq!(
        scan_all("1 // one + two\n2"),
        vec![
            token(TokenType::Number, "1", 1),
            token(TokenType::Semicolon, "\n", 2),
            token(TokenType::Number, "2", 2),
            token(TokenType::EOF, "", 2),
        ]
    );
    assert_eq!(scan_all("// only a comment"), vec![token(TokenType::EOF, "", 1)]);
    assert_eq!(scan_all("//"), vec![token(TokenType::EOF, "", 1)]);
    assert_eq!(
        scan_all("1 / 2"),
        vec![
            token(TokenType::Number, "1", 1),
            token(TokenType::Slash, "/", 1),
            token(TokenType::Number, "2", 1),
            token(TokenType::EOF, "", 1),
        ]
    );
    assert_eq!(scan_all("/"), vec![token(TokenType::Slash, "/", 1), token(TokenType::EOF, "", 1)]);
    assert_eq!(
        scan_all("/ /"),
        vec![token(TokenType::Slash, "/", 1), token(TokenType::Slash, "/", 1), token(TokenType::EOF, "", 1)]
    );
}

#[test]
fn strings() {
    assert_eq!(
        scan_all("\"hello\" \"\""),
        vec![
            token(TokenType::String, "\"hello\"", 1),
            token(TokenType::String, "\"\"", 1),
            token(TokenType::EOF, "", 1),
        ]
    );
    assert_eq!(
        scan_all("\"a\nb\n\" 1"),
        vec![
            token(TokenType::String, "\"a\nb\n\"", 3),
            token(TokenType::Number, "1", 3),
            token(TokenType::EOF, "", 3),
        ]
    );
    assert_eq!(
        scan_all("\"1 + // x\""),
        vec![token(TokenType::String, "\"1 + // x\"", 1), token(TokenType::EOF, "", 1)]
    );
}

#[test]
fn unterminated_string_is_an_error_token() {
    assert_eq!(
        scan_all("\"abc"),
        vec![token(TokenType::Error, "Unterminated String", 1), token(TokenType::EOF, "", 1)]
    );
    assert_eq!(
        scan_all("1 \"abc\ndef"),
        vec![
            token(TokenType::Number, "1", 1),
            token(TokenType::Error, "Unterminated String", 2),
            token(TokenType::EOF, "", 2),
        ]
    );
    assert_eq!(
        scan_all("\""),
        vec![token(TokenType::Error, "Unterminated String", 1), token(TokenType::EOF, "", 1)]
    );
}

#[test]
fn unexpected_characters_are_error_tokens() {
    assert_eq!(
        scan_all("1 @ 2"),
        vec![
            token(TokenType::Number, "1", 1),
            token(TokenType::Error, "Unexpected character: @", 1),
            token(TokenType::Number, "2", 1),
            token(TokenType::EOF, "", 1),
        ]
    );
    for c in ['~', '&', '|', '^', '#', '$', '%', '\'', '\\', '?', ':', '`', '\0', 'é', '日', '٣'] {
        let mut source = String::new();
        source.push(c);
        let mut message = String::from("Unexpected character: ");
        message.push(c);
        assert_eq!(scan_all(&source), vec![token(TokenType::Error, &message, 1), token(TokenType::EOF, "", 1)]);
    }
}

#[test]
fn text_beyond_ascii_keeps_its_characters() {
    assert_eq!(
        scan_all("\"héllo 日本\" x"),
        vec![
            token(TokenType::String, "\"héllo 日本\"", 1),
            token(TokenType::Identifier, "x", 1),
            token(TokenType::EOF, "", 1),
        ]
    );
}

#[test]
fn scanner_primitives() {
    let mut scanner = Scanner::new(String::from("ab=c"));
    assert!(!scanner.is_at_end());
    assert_eq!(scanner.peek(), 'a');
    assert_eq!(scanner.peek_next(), 'b');
    assert_eq!(scanner.peek_n(2), '=');
    assert_eq!(scanner.peek_n(3), 'c');
    assert_eq!(scanner.peek_n(4), '\0');
    assert_eq!(scanner.peek_n(usize::MAX), '\0');
    assert_eq!(scanner.advance(), 'a');
    assert_eq!(scanner.advance(), 'b');
    let made = scanner.make_token(TokenType::Identifier);
    assert_eq!(made.token_type, TokenType::Identifier);
    assert_eq!(made.lexme, "ab");
    assert_eq!(made.line, 1);
    assert!(!scanner.match_char('x'));
    assert_eq!(scanner.peek(), '=');
    assert!(scanner.match_char('='));
    assert_eq!(scanner.peek(), 'c');
    assert_eq!(scanner.advance(), 'c');
    assert!(scanner.is_at_end());
    assert!(!scanner.match_char('c'));
    assert_eq!(scanner.peek(), '\0');
    assert_eq!(scanner.peek_next(), '\0');
    let error = scanner.error_token(String::from("bad"));
    assert_eq!(error.token_type, TokenType::Error);
    assert_eq!(error.lexme, "bad");
    assert_eq!(error.line, 1);
}

#[test]
fn skip_whitespace_stops_at_a_newline_or_token() {
    let mut scanner = Scanner::new(String::from("  \t// c\n 1"));
    scanner.skip_whitespace();
    assert_eq!(scanner.peek(), '\n');
    scanner.skip_whitespace();
    assert_eq!(scanner.peek(), '\n');
    assert_eq!(scanner.advance(), '\n');
    scanner.skip_whitespace();
    assert_eq!(scanner.peek(), '1');
}

#[test]
fn make_number_reads_the_rest_of_a_number() {
    let mut scanner = Scanner::new(String::from("12.50.3"));
    assert_eq!(scanner.advance(), '1');
    let number = scanner.make_number();
    assert_eq!(number.token_type, TokenType::Number);
    assert_eq!(number.lexme, "12.50");
    assert_eq!(scanner.peek(), '.');
}

#[test]
fn make_identifier_reads_the_rest_of_a_word() {
    let mut scanner = Scanner::new(String::from("while1 x"));
    assert_eq!(scanner.advance(), 'w');
    let word = scanner.make_identifier();
    assert_eq!(word.token_type, TokenType::Identifier);
    assert_eq!(word.lexme, "while1");
    let mut scanner = Scanner::new(String::from("while x"));
    assert_eq!(scanner.advance(), 'w');
    let word = scanner.make_identifier();
    assert_eq!(word.token_type, TokenType::While);
    assert_eq!(word.lexme, "while");
    assert_eq!(scanner.identifier_type(), TokenType::While);
}

#[test]
fn make_string_reads_up_to_the_closing_quote() {
    let mut scanner = Scanner::new(String::from("\"ab\nc\"d"));
    assert_eq!(scanner.advance(), '"');
    let string = scanner.make_string();
    assert_eq!(string.token_type, TokenType::String);
    assert_eq!(string.lexme, "\"ab\nc\"");
    assert_eq!(string.line, 2);
    assert_eq!(scanner.peek(), 'd');
}

#[test]
fn match_keyword_compares_the_rest_of_the_word() {
    let mut scanner = Scanner::new(String::from("super"));
    for _ in 0..5 {
        scanner.advance();
    }
    assert_eq!(scanner.match_keyword(1, "uper", TokenType::Super), TokenType::Super);
    assert_eq!(scanner.match_keyword(2, "per", TokenType::Super), TokenType::Super);
    assert_eq!(scanner.match_keyword(5, "", TokenType::Super), TokenType::Super);
    assert_eq!(scanner.match_keyword(1, "upe", TokenType::Super), TokenType::Identifier);
    assert_eq!(scanner.match_keyword(1, "upers", TokenType::Super), TokenType::Identifier);
    assert_eq!(scanner.match_keyword(1, "upex", TokenType::Super), TokenType::Identifier);
    assert_eq!(scanner.match_keyword(6, "", TokenType::Super), TokenType::Identifier);
    assert_eq!(scanner.match_keyword(usize::MAX, "uper", TokenType::Super), TokenType::Identifier);
}

#[test]
fn identifier_type_of_an_empty_word() {
    let scanner = Scanner::new(String::from("class"));
    assert_eq!(scanner.identifier_type(), TokenType::Identifier);
}
