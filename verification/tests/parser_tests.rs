use language::chunk::Chunk;
use language::line_start::LineStart;
use language::opcode::OpCode;
use language::parser::{ParseFn, ParseRule, Parser, Precedence, MAX_CONSTANTS};
use language::scanner::Scanner;
use language::token::{Token, TokenType};
use language::value::Value;
use language::vm::VM;

fn compile(source: &str) -> (Result<(), Vec<String>>, Chunk) {
    let mut vm = VM::new();
    let mut chunk = Chunk::new();
    let compiled = vm.compile(String::from(source), &mut chunk);
    (compiled, chunk)
}

fn numbers(chunk: &Chunk) -> Vec<f64> {
    chunk.constants.iter().map(|value| f64::from_bits(value.bits())).collect()
}

fn sum_of(count: usize) -> String {
    let mut source = String::from("1");
    for _ in 1..count {
        source.push_str(" + 1");
    }
    source
}

fn all_kinds() -> Vec<TokenType> {
    vec![
        TokenType::LeftParen,
        TokenType::RightParen,
        TokenType::LeftBrace,
        TokenType::RightBrace,
        TokenType::LeftBracket,
        TokenType::RightBracket,
        TokenType::Comma,
        TokenType::Dot,
        TokenType::Plus,
        TokenType::Minus,
        TokenType::Star,
        TokenType::Slash,
        TokenType::Semicolon,
        TokenType::Bang,
        TokenType::BangEq,
        TokenType::BitComplement,
        TokenType::EQ,
        TokenType::EqEq,
        TokenType::Gt,
        TokenType::Ge,
        TokenType::Le,
        TokenType::Lt,
        TokenType::BitAnd,
        TokenType::And,
        TokenType::BitOr,
        TokenType::Or,
        TokenType::XOR,
        TokenType::Identifier,
        TokenType::String,
        TokenType::Number,
        TokenType::True,
        TokenType::False,
        TokenType::If,
        TokenType::Else,
        TokenType::Return,
        TokenType::While,
        TokenType::For,
        TokenType::Var,
        TokenType::Val,
        TokenType::Fun,
        TokenType::Class,
        TokenType::Null,
        TokenType::This,
        TokenType::Super,
        TokenType::Error,
        TokenType::EOF,
    ]
}

#[test]
fn precedence_levels_are_ordered() {
    let levels = [
        Precedence::Lowest,
        Precedence::Assignment,
        Precedence::Or,
        Precedence::And,
        Precedence::Eq,
        Precedence::Comp,
        Precedence::Term,
        Precedence::Factor,
        Precedence::Unary,
        Precedence::Call,
        Precedence::Primary,
    ];
    for (rank, level) in levels.iter().enumerate() {
        assert_eq!(u8::from(*level), rank as u8);
        assert_eq!(Precedence::from(rank as u8), *level);
    }
    for byte in 11..=255u8 {
        assert_eq!(Precedence::from(byte), Precedence::Lowest);
    }
}

#[test]
fn parse_rule_constructors() {
    let rule = ParseRule::new(Some(ParseFn::Unary), Some(ParseFn::Binary), Precedence::Term);
    assert_eq!(rule.prefix, Some(ParseFn::Unary));
    assert_eq!(rule.infix, Some(ParseFn::Binary));
    assert_eq!(rule.precedence, Precedence::Term);
    let empty = ParseRule::empty();
    assert_eq!(empty.prefix, None);
    assert_eq!(empty.infix, None);
    assert_eq!(empty.precedence, Precedence::Lowest);
}

#[test]
fn rule_table() {
    let parser = Parser::new();
    for kind in all_kinds() {
        let rule = parser.get_rule(kind);
        let expected = match kind {
            TokenType::LeftParen => (Some(ParseFn::Grouping), None, Precedence::Lowest),
            TokenType::Plus => (None, Some(ParseFn::Binary), Precedence::Term),
            TokenType::Minus => (Some(ParseFn::Unary), Some(ParseFn::Binary), Precedence::Term),
            TokenType::Star => (None, Some(ParseFn::Binary), Precedence::Factor),
            TokenType::Slash => (None, Some(ParseFn::Binary), Precedence::Factor),
            TokenType::Number => (Some(ParseFn::Number), None, Precedence::Lowest),
            _ => (None, None, Precedence::Lowest),
        };
        assert_eq!((rule.prefix, rule.infix, rule.precedence), expected, "{:?}", kind);
    }
}

#[test]
fn new_parser_has_seen_nothing() {
    let parser = Parser::new();
    assert_eq!(parser.current.token_type, TokenType::EOF);
    assert_eq!(parser.current.lexme, "");
    assert_eq!(parser.current.line, 0);
    assert_eq!(parser.previous.token_type, TokenType::EOF);
    assert_eq!(parser.previous.lexme, "");
    assert_eq!(parser.previous.line, 0);
    assert!(!parser.had_error);
    assert!(!parser.panic_mode);
    assert!(parser.diagnostics.is_empty());
}

#[test]
fn report_formats() {
    let plus = Token::new(TokenType::Plus, String::from("+"), 3);
    assert_eq!(Parser::error_at(&plus, "boom"), "[line 3] Error at '+': boom");
    let end = Token::new(TokenType::EOF, String::new(), 12);
    assert_eq!(Parser::error_at(&end, "boom"), "[line 12] Error at end: boom");
    let bad = Token::new(TokenType::Error, String::from("Unexpected character: @"), 7);
    assert_eq!(Parser::error_at(&bad, "Unexpected character: @"), "[line 7] Error: Unexpected character: @");
    let zero = Token::new(TokenType::Number, String::from("12.5"), 0);
    assert_eq!(Parser::error_at(&zero, "m"), "[line 0] Error at '12.5': m");
    let negative = Token::new(TokenType::Identifier, String::from("x"), -45);
    assert_eq!(Parser::error_at(&negative, ""), "[line -45] Error at 'x': ");
    let largest = Token::new(TokenType::Identifier, String::from("x"), i32::MAX);
    assert_eq!(Parser::error_at(&largest, "m"), "[line 2147483647] Error at 'x': m");
    let smallest = Token::new(TokenType::Identifier, String::from("x"), i32::MIN);
    assert_eq!(Parser::error_at(&smallest, "m"), "[line -2147483648] Error at 'x': m");
    let thousand = Token::new(TokenType::Identifier, String::from("x"), 1000);
    assert_eq!(Parser::error_at(&thousand, "m"), "[line 1000] Error at 'x': m");
}

#[test]
fn first_error_is_reported_and_later_ones_are_held_back() {
    let mut parser = Parser::new();
    parser.current = Token::new(TokenType::Plus, String::from("+"), 2);
    parser.previous = Token::new(TokenType::Number, String::from("1"), 1);
    parser.error_at_current(String::from("first"));
    assert!(parser.had_error);
    assert!(parser.panic_mode);
    assert_eq!(parser.diagnostics, vec![String::from("[line 2] Error at '+': first")]);
    parser.error(String::from("second"));
    parser.error_at_current(String::from("third"));
    assert_eq!(parser.diagnostics, vec![String::from("[line 2] Error at '+': first")]);
    let mut parser = Parser::new();
    parser.previous = Token::new(TokenType::Number, String::from("1"), 1);
    parser.error(String::from("at previous"));
    assert_eq!(parser.diagnostics, vec![String::from("[line 1] Error at '1': at previous")]);
}

#[test]
fn advance_shifts_tokens_and_skips_errors() {
    let mut scanner = Scanner::new(String::from("1 @ # +"));
    let mut parser = Parser::new();
    parser.advance(&mut scanner);
    assert_eq!(parser.previous.token_type, TokenType::EOF);
    assert_eq!(parser.current.token_type, TokenType::Number);
    assert!(!parser.had_error);
    parser.advance(&mut scanner);
    assert_eq!(parser.previous.token_type, TokenType::Number);
    assert_eq!(parser.previous.lexme, "1");
    assert_eq!(parser.current.token_type, TokenType::Plus);
    assert!(parser.had_error);
    assert!(parser.panic_mode);
    assert_eq!(parser.diagnostics, vec![String::from("[line 1] Error: Unexpected character: @")]);
    parser.advance(&mut scanner);
    assert_eq!(parser.previous.token_type, TokenType::Plus);
    assert_eq!(parser.current.token_type, TokenType::EOF);
    parser.advance(&mut scanner);
    assert_eq!(parser.previous.token_type, TokenType::EOF);
    assert_eq!(parser.current.token_type, TokenType::EOF);
}

#[test]
fn consume_reads_the_expected_token_or_reports() {
    let mut scanner = Scanner::new(String::from(") 1"));
    let mut parser = Parser::new();
    parser.advance(&mut scanner);
    parser.consume(&mut scanner, TokenType::RightParen, String::from("Expect ')' after expression."));
    assert!(!parser.had_error);
    assert_eq!(parser.previous.token_type, TokenType::RightParen);
    assert_eq!(parser.current.token_type, TokenType::Number);
    parser.consume(&mut scanner, TokenType::RightParen, String::from("Expect ')' after expression."));
    assert!(parser.had_error);
    assert_eq!(parser.current.token_type, TokenType::Number);
    assert_eq!(parser.diagnostics, vec![String::from("[line 1] Error at '1': Expect ')' after expression.")]);
}

#[test]
fn emitters_write_on_the_line_of_the_previous_token() {
    let mut parser = Parser::new();
    parser.previous = Token::new(TokenType::Number, String::from("1"), 9);
    let mut chunk = Chunk::new();
    parser.emit_byte(&mut chunk, OpCode::OpAdd);
    parser.emit_bytes(&mut chunk, OpCode::OpConstant, OpCode::Index(4));
    parser.emit_return(&mut chunk);
    parser.end_compiler(&mut chunk);
    assert_eq!(chunk.code, vec![2, 1, 4, 7, 7]);
    assert_eq!(chunk.lines, vec![LineStart { offset: 0, line: 9 }]);
}

#[test]
fn make_constant_numbers_the_pool() {
    let mut parser = Parser::new();
    let mut chunk = Chunk::new();
    for index in 0..MAX_CONSTANTS {
        let operand = parser.make_constant(&mut chunk, Value::Number(index as u64));
        assert_eq!(operand, OpCode::Index(index as u8));
        assert!(!parser.had_error);
    }
    assert_eq!(chunk.constants.len(), 255);
    let operand = parser.make_constant(&mut chunk, Value::Number(1000));
    assert_eq!(operand, OpCode::Index(0));
    assert!(parser.had_error);
    assert_eq!(chunk.constants.len(), 256);
    assert_eq!(parser.diagnostics, vec![String::from("[line 0] Error at end: too many constants in one unit")]);
    assert!(chunk.code.is_empty());
}

#[test]
fn emit_constant_writes_the_load() {
    let mut parser = Parser::new();
    parser.previous = Token::new(TokenType::Number, String::from("1.2"), 4);
    let mut chunk = Chunk::new();
    parser.emit_constant(&mut chunk, Value::Number(1.2f64.to_bits()));
    parser.emit_constant(&mut chunk, Value::Number(1.2f64.to_bits()));
    assert_eq!(chunk.code, vec![1, 0, 1, 1]);
    assert_eq!(numbers(&chunk), vec![1.2, 1.2]);
}

#[test]
fn number_compiles_the_previous_lexeme() {
    let mut scanner = Scanner::new(String::new());
    let mut parser = Parser::new();
    parser.previous = Token::new(TokenType::Number, String::from("12.5"), 1);
    let mut chunk = Chunk::new();
    parser.number(&mut scanner, &mut chunk);
    assert_eq!(chunk.code, vec![1, 0]);
    assert_eq!(numbers(&chunk), vec![12.5]);
    assert!(!parser.had_error);
    parser.previous = Token::new(TokenType::Identifier, String::from("abc"), 2);
    parser.number(&mut scanner, &mut chunk);
    assert_eq!(chunk.code, vec![1, 0]);
    assert!(parser.had_error);
    assert_eq!(parser.diagnostics, vec![String::from("[line 2] Error at 'abc': invalid number")]);
}

#[test]
fn compiles_a_number() {
    let (compiled, chunk) = compile("1.5");
    assert_eq!(compiled, Ok(()));
    assert_eq!(chunk.code, vec![1, 0, 7]);
    assert_eq!(numbers(&chunk), vec![1.5]);
    assert_eq!(chunk.lines, vec![LineStart { offset: 0, line: 1 }]);
}

#[test]
fn factor_binds_tighter_than_term() {
    let (compiled, chunk) = compile("1 + 2 * 3");
    assert_eq!(compiled, Ok(()));
    assert_eq!(chunk.code, vec![1, 0, 1, 1, 1, 2, 4, 2, 7]);
    assert_eq!(numbers(&chunk), vec![1.0, 2.0, 3.0]);
    let (compiled, chunk) = compile("1 * 2 + 3");
    assert_eq!(compiled, Ok(()));
    assert_eq!(chunk.code, vec![1, 0, 1, 1, 4, 1, 2, 2, 7]);
    let (compiled, chunk) = compile("8 / 4 - 2 * 3");
    assert_eq!(compiled, Ok(()));
    assert_eq!(chunk.code, vec![1, 0, 1, 1, 5, 1, 2, 1, 3, 4, 3, 7]);
}

#[test]
fn grouping_overrides_precedence() {
    let (compiled, chunk) = compile("(1 + 2) * 3");
    assert_eq!(compiled, Ok(()));
    assert_eq!(chunk.code, vec![1, 0, 1, 1, 2, 1, 2, 4, 7]);
    let (compiled, chunk) = compile("((((7))))");
    assert_eq!(compiled, Ok(()));
    assert_eq!(chunk.code, vec![1, 0, 7]);
}

#[test]
fn equal_levels_group_to_the_left() {
    let (compiled, chunk) = compile("1 - 2 - 3");
    assert_eq!(compiled, Ok(()));
    assert_eq!(chunk.code, vec![1, 0, 1, 1, 3, 1, 2, 3, 7]);
    let (compiled, chunk) = compile("8 / 4 / 2");
    assert_eq!(compiled, Ok(()));
    assert_eq!(chunk.code, vec![1, 0, 1, 1, 5, 1, 2, 5, 7]);
}

#[test]
fn unary_binds_tighter_than_binary() {
    let (compiled, chunk) = compile("- -2");
    assert_eq!(compiled, Ok(()));
    assert_eq!(chunk.code, vec![1, 0, 6, 6, 7]);
    let (compiled, chunk) = compile("-2 - -3");
    assert_eq!(compiled, Ok(()));
    assert_eq!(chunk.code, vec![1, 0, 6, 1, 1, 6, 3, 7]);
    let (compiled, chunk) = compile("-2 * 3");
    assert_eq!(compiled, Ok(()));
    assert_eq!(chunk.code, vec![1, 0, 6, 1, 1, 4, 7]);
    let (compiled, chunk) = compile("-(2 + 3)");
    assert_eq!(compiled, Ok(()));
    assert_eq!(chunk.code, vec![1, 0, 1, 1, 2, 6, 7]);
}

#[test]
fn equal_literals_take_separate_slots() {
    let (compiled, chunk) = compile("1.2 + 1.2");
    assert_eq!(compiled, Ok(()));
    assert_eq!(chunk.code, vec![1, 0, 1, 1, 2, 7]);
    assert_eq!(numbers(&chunk), vec![1.2, 1.2]);
}

#[test]
fn comments_and_blanks_do_not_change_the_code() {
    let (compiled, chunk) = compile("  1\t+ 2 // the sum");
    assert_eq!(compiled, Ok(()));
    assert_eq!(chunk.code, vec![1, 0, 1, 1, 2, 7]);
}

#[test]
fn empty_source_expects_an_expression() {
    let (compiled, chunk) = compile("");
    assert_eq!(compiled, Err(vec![String::from("[line 1] Error at end: expected expression")]));
    assert_eq!(chunk.code, vec![7]);
}

#[test]
fn missing_operand_is_reported_at_the_end() {
    let (compiled, _) = compile("1 +");
    assert_eq!(compiled, Err(vec![String::from("[line 1] Error at end: expected expression")]));
    let (compiled, _) = compile("1 + * 2");
    assert_eq!(compiled, Err(vec![String::from("[line 1] Error at '*': expected expression")]));
}

#[test]
fn only_minus_is_a_prefix_operator() {
    for operator in ["+", "*", "/", "!", ")", "=", "<", ";", ","] {
        let mut source = String::from(operator);
        source.push_str(" 1");
        let (compiled, _) = compile(&source);
        let mut expected = String::from("[line 1] Error at '");
        expected.push_str(operator);
        expected.push_str("': expected expression");
        assert_eq!(compiled, Err(vec![expected]), "{}", operator);
    }
}

#[test]
fn unclosed_group_is_reported() {
    let (compiled, _) = compile("(1 + 2");
    assert_eq!(compiled, Err(vec![String::from("[line 1] Error at end: Expect ')' after expression.")]));
    let (compiled, _) = compile("(1 2)");
    assert_eq!(compiled, Err(vec![String::from("[line 1] Error at '2': Expect ')' after expression.")]));
}

#[test]
fn text_after_the_expression_is_reported() {
    let (compiled, chunk) = compile("1 2");
    assert_eq!(compiled, Err(vec![String::from("[line 1] Error at '2': Expect end of expression.")]));
    assert_eq!(chunk.code, vec![1, 0, 7]);
    let (compiled, _) = compile("1)");
    assert_eq!(compiled, Err(vec![String::from("[line 1] Error at ')': Expect end of expression.")]));
    let (compiled, _) = compile("1\n");
    assert_eq!(compiled, Err(vec![String::from("[line 2] Error at '\n': Expect end of expression.")]));
    let (compiled, _) = compile("x");
    assert_eq!(compiled, Err(vec![String::from("[line 1] Error at 'x': expected expression")]));
}

#[test]
fn unterminated_string_is_a_compile_error() {
    let (compiled, _) = compile("\"abc");
    assert_eq!(compiled, Err(vec![String::from("[line 1] Error: Unterminated String")]));
    let (compiled, _) = compile("1 + \"abc\ndef");
    assert_eq!(compiled, Err(vec![String::from("[line 2] Error: Unterminated String")]));
}

#[test]
fn lexical_errors_are_reported_once_and_compilation_goes_on() {
    let (compiled, chunk) = compile("1 @ + # 2");
    assert_eq!(compiled, Err(vec![String::from("[line 1] Error: Unexpected character: @")]));
    assert_eq!(chunk.code, vec![1, 0, 1, 1, 2, 7]);
}

#[test]
fn lines_reach_the_line_map() {
    let (compiled, chunk) = compile("(1 +\n2)");
    assert_eq!(compiled, Err(vec![String::from("[line 2] Error at '\n': expected expression")]));
    assert_eq!(chunk.get_line(0), 1);
    let (compiled, chunk) = compile("1 // first\n");
    assert_eq!(compiled, Err(vec![String::from("[line 2] Error at '\n': Expect end of expression.")]));
    assert_eq!(chunk.lines, vec![LineStart { offset: 0, line: 1 }]);
}

#[test]
fn as_many_constants_as_the_pool_holds() {
    let (compiled, chunk) = compile(&sum_of(255));
    assert_eq!(compiled, Ok(()));
    assert_eq!(chunk.constants.len(), 255);
    assert_eq!(chunk.code.len(), 2 * 255 + 254 + 1);
    assert_eq!(chunk.code[2 * 255 + 254 - 3], 1);
    assert_eq!(chunk.code[2 * 255 + 254 - 2], 254);
}

#[test]
fn one_constant_too_many_is_a_compile_error() {
    let (compiled, chunk) = compile(&sum_of(256));
    assert_eq!(compiled, Err(vec![String::from("[line 1] Error at '1': too many constants in one unit")]));
    assert_eq!(chunk.constants.len(), 256);
    let code_length = chunk.code.len();
    assert_eq!(chunk.code[code_length - 4], 1);
    assert_eq!(chunk.code[code_length - 3], 0);
    assert_eq!(chunk.code[code_length - 2], 2);
    assert_eq!(chunk.code[code_length - 1], 7);
}

#[test]
fn many_more_constants_than_the_pool_holds() {
    let (compiled, chunk) = compile(&sum_of(1000));
    assert_eq!(compiled, Err(vec![String::from("[line 1] Error at '1': too many constants in one unit")]));
    assert_eq!(chunk.constants.len(), 1000);
    let mut source = String::from("0");
    for literal in 1..300 {
        source.push_str(" + ");
        source.push_str(&literal.to_string());
    }
    let (compiled, _) = compile(&source);
    assert_eq!(compiled, Err(vec![String::from("[line 1] Error at '255': too many constants in one unit")]));
}

#[test]
fn parsing_steps_by_hand() {
    let mut scanner = Scanner::new(String::from("2 * (3 + 4) - 1"));
    let mut parser = Parser::new();
    let mut chunk = Chunk::new();
    parser.advance(&mut scanner);
    parser.parse_precedence(&mut scanner, &mut chunk, Precedence::Factor);
    assert_eq!(chunk.code, vec![1, 0, 1, 1, 1, 2, 2, 4]);
    assert_eq!(parser.current.token_type, TokenType::Minus);
    parser.advance(&mut scanner);
    parser.binary(&mut scanner, &mut chunk);
    assert_eq!(chunk.code, vec![1, 0, 1, 1, 1, 2, 2, 4, 1, 3, 3]);
    assert_eq!(parser.current.token_type, TokenType::EOF);
    assert!(!parser.had_error);
}

#[test]
fn grouping_and_unary_by_hand() {
    let mut scanner = Scanner::new(String::from("(5) -6 7"));
    let mut parser = Parser::new();
    let mut chunk = Chunk::new();
    parser.advance(&mut scanner);
    parser.advance(&mut scanner);
    parser.grouping(&mut scanner, &mut chunk);
    assert_eq!(chunk.code, vec![1, 0]);
    assert_eq!(parser.previous.token_type, TokenType::RightParen);
    parser.advance(&mut scanner);
    parser.unary(&mut scanner, &mut chunk);
    assert_eq!(chunk.code, vec![1, 0, 1, 1, 6]);
    parser.expression(&mut scanner, &mut chunk);
    assert_eq!(chunk.code, vec![1, 0, 1, 1, 6, 1, 2]);
    assert!(!parser.had_error);
}
