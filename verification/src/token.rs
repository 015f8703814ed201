use vstd::prelude::*;
use vstd::std_specs::convert::FromSpecImpl;

verus! {

/// The kinds of token. Their order is the order of the rule table.
#[derive(Debug, PartialEq, Eq, Clone, Copy, Structural)]
pub enum TokenType {
    LeftParen,
    RightParen,
    LeftBrace,
    RightBrace,
    LeftBracket,
    RightBracket,
    Comma,
    Dot,
    Plus,
    Minus,
    Star,
    Slash,
    /// A `;`, or the end of a line.
    Semicolon,
    Bang,
    BangEq,
    BitComplement,
    EQ,
    EqEq,
    Gt,
    Ge,
    Le,
    Lt,
    BitAnd,
    And,
    BitOr,
    Or,
    XOR,
    Identifier,
    String,
    Number,
    True,
    False,
    If,
    Else,
    Return,
    While,
    For,
    Var,
    Val,
    Fun,
    Class,
    Null,
    This,
    Super,
    /// Malformed text; the lexeme is the message.
    Error,
    /// The end of the source.
    EOF,
}

/// The number of token kinds.
pub const TOKEN_KINDS: usize = 46;

impl TokenType {
    /// The position of the kind in the enumeration, counted from 0.
    pub open spec fn index(self) -> usize {
        match self {
            TokenType::LeftParen => 0,
            TokenType::RightParen => 1,
            TokenType::LeftBrace => 2,
            TokenType::RightBrace => 3,
            TokenType::LeftBracket => 4,
            TokenType::RightBracket => 5,
            TokenType::Comma => 6,
            TokenType::Dot => 7,
            TokenType::Plus => 8,
            TokenType::Minus => 9,
            TokenType::Star => 10,
            TokenType::Slash => 11,
            TokenType::Semicolon => 12,
            TokenType::Bang => 13,
            TokenType::BangEq => 14,
            TokenType::BitComplement => 15,
            TokenType::EQ => 16,
            TokenType::EqEq => 17,
            TokenType::Gt => 18,
            TokenType::Ge => 19,
            TokenType::Le => 20,
            TokenType::Lt => 21,
            TokenType::BitAnd => 22,
            TokenType::And => 23,
            TokenType::BitOr => 24,
            TokenType::Or => 25,
            TokenType::XOR => 26,
            TokenType::Identifier => 27,
            TokenType::String => 28,
            TokenType::Number => 29,
            TokenType::True => 30,
            TokenType::False => 31,
            TokenType::If => 32,
            TokenType::Else => 33,
            TokenType::Return => 34,
            TokenType::While => 35,
            TokenType::For => 36,
            TokenType::Var => 37,
            TokenType::Val => 38,
            TokenType::Fun => 39,
            TokenType::Class => 40,
            TokenType::Null => 41,
            TokenType::This => 42,
            TokenType::Super => 43,
            TokenType::Error => 44,
            TokenType::EOF => 45,
        }
    }
}

impl From<TokenType> for usize {
    fn from(token_type: TokenType) -> (index: usize) {
        match token_type {
            TokenType::LeftParen => 0,
            TokenType::RightParen => 1,
            TokenType::LeftBrace => 2,
            TokenType::RightBrace => 3,
            TokenType::LeftBracket => 4,
            TokenType::RightBracket => 5,
            TokenType::Comma => 6,
            TokenType::Dot => 7,
            TokenType::Plus => 8,
            TokenType::Minus => 9,
            TokenType::Star => 10,
            TokenType::Slash => 11,
            TokenType::Semicolon => 12,
            TokenType::Bang => 13,
            TokenType::BangEq => 14,
            TokenType::BitComplement => 15,
            TokenType::EQ => 16,
            TokenType::EqEq => 17,
            TokenType::Gt => 18,
            TokenType::Ge => 19,
            TokenType::Le => 20,
            TokenType::Lt => 21,
            TokenType::BitAnd => 22,
            TokenType::And => 23,
            TokenType::BitOr => 24,
            TokenType::Or => 25,
            TokenType::XOR => 26,
            TokenType::Identifier => 27,
            TokenType::String => 28,
            TokenType::Number => 29,
            TokenType::True => 30,
            TokenType::False => 31,
            TokenType::If => 32,
            TokenType::Else => 33,
            TokenType::Return => 34,
            TokenType::While => 35,
            TokenType::For => 36,
            TokenType::Var => 37,
            TokenType::Val => 38,
            TokenType::Fun => 39,
            TokenType::Class => 40,
            TokenType::Null => 41,
            TokenType::This => 42,
            TokenType::Super => 43,
            TokenType::Error => 44,
            TokenType::EOF => 45,
        }
    }
}

impl FromSpecImpl<TokenType> for usize {
    open spec fn obeys_from_spec() -> bool {
        true
    }

    open spec fn from_spec(token_type: TokenType) -> usize {
        token_type.index()
    }
}

/// The kinds are numbered densely: every index is below `TOKEN_KINDS`, and
/// two kinds with one index are one kind.
pub proof fn lemma_index_dense(a: TokenType, b: TokenType)
    ensures
        a.index() < TOKEN_KINDS,
        a.index() == b.index() ==> a == b,
{
}

/// The mathematical content of a `Token`.
pub struct TokenView {
    pub token_type: TokenType,
    pub lexme: Seq<char>,
    pub line: i32,
}

/// A token: its kind, the text it was read from (for an `Error` token, the
/// message), and the line it ends on.
#[derive(Debug, Clone)]
pub struct Token {
    pub token_type: TokenType,
    pub lexme: String,
    pub line: i32,
}

impl View for Token {
    type V = TokenView;

    open spec fn view(&self) -> TokenView {
        TokenView { token_type: self.token_type, lexme: self.lexme@, line: self.line }
    }
}

impl Token {
    /// A token of its three parts.
    pub fn new(token_type: TokenType, lexme: String, line: i32) -> (token: Token)
        ensures
            token@ == (TokenView { token_type, lexme: lexme@, line }),
    {
        Token { token_type, lexme, line }
    }
}

} // verus!
