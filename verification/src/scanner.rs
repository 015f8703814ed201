use crate::text::{chars_of, push_char, text_of};
use crate::token::{Token, TokenType, TokenView};
use vstd::prelude::*;
use vstd::string::{StrSliceExecFns, StringExecFns};

verus! {

pub open spec fn is_digit(c: char) -> bool {
    '0' <= c && c <= '9'
}

pub open spec fn is_letter(c: char) -> bool {
    ('a' <= c && c <= 'z') || ('A' <= c && c <= 'Z')
}

/// Space, carriage return and tab separate tokens and mean nothing else. A
/// line feed is not among them: it is a token.
pub open spec fn is_blank(c: char) -> bool {
    c == ' ' || c == '\r' || c == '\t'
}

/// The first position at or after `pos` that holds a line feed, or the end
/// of the source.
pub open spec fn line_end(source: Seq<char>, pos: int) -> int
    decreases source.len() - pos,
{
    if 0 <= pos < source.len() && source[pos] != '\n' {
        line_end(source, pos + 1)
    } else {
        pos
    }
}

/// Where the blanks and the `//` comment that start at `pos` end. A comment
/// runs up to the end of its line and leaves the line feed in place.
pub open spec fn blank_end(source: Seq<char>, pos: int) -> int
    decreases source.len() - pos,
{
    if 0 <= pos < source.len() && is_blank(source[pos]) {
        blank_end(source, pos + 1)
    } else if 0 <= pos && pos + 1 < source.len() && source[pos] == '/' && source[pos + 1] == '/' {
        line_end(source, pos + 2)
    } else {
        pos
    }
}

/// The first position at or after `pos` that holds no digit.
pub open spec fn digits_end(source: Seq<char>, pos: int) -> int
    decreases source.len() - pos,
{
    if 0 <= pos < source.len() && is_digit(source[pos]) {
        digits_end(source, pos + 1)
    } else {
        pos
    }
}

/// Where the number ends whose further digits start at `pos`: after the
/// digits, and after a `.` with the digits behind it where a digit follows
/// the `.`.
pub open spec fn number_end(source: Seq<char>, pos: int) -> int {
    let whole = digits_end(source, pos);
    if 0 <= whole && whole + 1 < source.len() && source[whole] == '.' && is_digit(source[whole + 1]) {
        digits_end(source, whole + 2)
    } else {
        whole
    }
}

/// The first position at or after `pos` that holds neither letter nor digit.
pub open spec fn word_end(source: Seq<char>, pos: int) -> int
    decreases source.len() - pos,
{
    if 0 <= pos < source.len() && (is_letter(source[pos]) || is_digit(source[pos])) {
        word_end(source, pos + 1)
    } else {
        pos
    }
}

/// The first position at or after `pos` that holds a `"`, or the end of the
/// source.
pub open spec fn quote_pos(source: Seq<char>, pos: int) -> int
    decreases source.len() - pos,
{
    if 0 <= pos < source.len() && source[pos] != '"' {
        quote_pos(source, pos + 1)
    } else {
        pos
    }
}

/// The number of line feeds from `from` up to `to`.
pub open spec fn newlines(source: Seq<char>, from: int, to: int) -> nat
    decreases to - from,
{
    if from >= to {
        0
    } else if 0 <= to - 1 < source.len() && source[to - 1] == '\n' {
        newlines(source, from, to - 1) + 1
    } else {
        newlines(source, from, to - 1)
    }
}

/// The line number `count` lines after `line`. It stops at the largest
/// number a line can have.
pub open spec fn later_line(line: i32, count: nat) -> i32 {
    if line + count > i32::MAX {
        i32::MAX
    } else {
        (line + count) as i32
    }
}

/// The reserved words.
pub open spec fn keyword(word: Seq<char>) -> Option<TokenType> {
    if word == seq!['c', 'l', 'a', 's', 's'] {
        Some(TokenType::Class)
    } else if word == seq!['e', 'l', 's', 'e'] {
        Some(TokenType::Else)
    } else if word == seq!['i', 'f'] {
        Some(TokenType::If)
    } else if word == seq!['n', 'u', 'l', 'l'] {
        Some(TokenType::Null)
    } else if word == seq!['r', 'e', 't', 'u', 'r', 'n'] {
        Some(TokenType::Return)
    } else if word == seq!['s', 'u', 'p', 'e', 'r'] {
        Some(TokenType::Super)
    } else if word == seq!['w', 'h', 'i', 'l', 'e'] {
        Some(TokenType::While)
    } else if word == seq!['f', 'a', 'l', 's', 'e'] {
        Some(TokenType::False)
    } else if word == seq!['f', 'u', 'n'] {
        Some(TokenType::Fun)
    } else if word == seq!['f', 'o', 'r'] {
        Some(TokenType::For)
    } else if word == seq!['v', 'a', 'r'] {
        Some(TokenType::Var)
    } else if word == seq!['v', 'a', 'l'] {
        Some(TokenType::Val)
    } else {
        None
    }
}

/// The kind of a word: that of the reserved word it is, else `Identifier`.
pub open spec fn word_kind(word: Seq<char>) -> TokenType {
    match keyword(word) {
        Some(kind) => kind,
        None => TokenType::Identifier,
    }
}

/// The kind of a token that is one punctuation character.
pub open spec fn punctuation(c: char) -> Option<TokenType> {
    if c == '(' {
        Some(TokenType::LeftParen)
    } else if c == ')' {
        Some(TokenType::RightParen)
    } else if c == '{' {
        Some(TokenType::LeftBrace)
    } else if c == '}' {
        Some(TokenType::RightBrace)
    } else if c == '[' {
        Some(TokenType::LeftBracket)
    } else if c == ']' {
        Some(TokenType::RightBracket)
    } else if c == ';' {
        Some(TokenType::Semicolon)
    } else if c == '.' {
        Some(TokenType::Dot)
    } else if c == ',' {
        Some(TokenType::Comma)
    } else if c == '+' {
        Some(TokenType::Plus)
    } else if c == '-' {
        Some(TokenType::Minus)
    } else if c == '*' {
        Some(TokenType::Star)
    } else if c == '/' {
        Some(TokenType::Slash)
    } else if c == '!' {
        Some(TokenType::Bang)
    } else if c == '=' {
        Some(TokenType::EQ)
    } else if c == '<' {
        Some(TokenType::Lt)
    } else if c == '>' {
        Some(TokenType::Gt)
    } else {
        None
    }
}

/// The kind of the two-character operator that a punctuation character and a
/// `=` behind it make, for the four characters that have one.
pub open spec fn with_equals(kind: TokenType) -> Option<TokenType> {
    match kind {
        TokenType::Bang => Some(TokenType::BangEq),
        TokenType::EQ => Some(TokenType::EqEq),
        TokenType::Lt => Some(TokenType::Le),
        TokenType::Gt => Some(TokenType::Ge),
        _ => None,
    }
}

/// The state of a scan: the source, where the token being read starts, the
/// cursor, and the line the cursor is on.
pub struct ScannerView {
    pub source: Seq<char>,
    pub start: int,
    pub current: int,
    pub line: i32,
}

impl ScannerView {
    pub open spec fn wf(self) -> bool {
        0 <= self.start <= self.current <= self.source.len()
    }

    pub open spec fn is_at_end(self) -> bool {
        self.current == self.source.len()
    }

    /// The number of characters not read yet.
    pub open spec fn remaining(self) -> int {
        self.source.len() - self.current
    }

    /// The character `n` places after the cursor; past the end, the character
    /// with code 0.
    pub open spec fn peek_n(self, n: int) -> char {
        if 0 <= self.current + n < self.source.len() {
            self.source[self.current + n]
        } else {
            '\0'
        }
    }

    /// The text of the token being read.
    pub open spec fn lexeme(self) -> Seq<char> {
        self.source.subrange(self.start, self.current)
    }

    pub open spec fn moved_to(self, current: int) -> ScannerView {
        ScannerView { current, ..self }
    }

    pub open spec fn make_token(self, token_type: TokenType) -> TokenView {
        TokenView { token_type, lexme: self.lexeme(), line: self.line }
    }

    pub open spec fn error_token(self, message: Seq<char>) -> TokenView {
        TokenView { token_type: TokenType::Error, lexme: message, line: self.line }
    }

    pub open spec fn skip_whitespace(self) -> ScannerView {
        self.moved_to(blank_end(self.source, self.current))
    }

    /// The rest of a number whose first digit has been read.
    pub open spec fn make_number(self) -> (TokenView, ScannerView) {
        let after = self.moved_to(number_end(self.source, self.current));
        (after.make_token(TokenType::Number), after)
    }

    /// The rest of a word whose first letter has been read.
    pub open spec fn make_identifier(self) -> (TokenView, ScannerView) {
        let after = self.moved_to(word_end(self.source, self.current));
        (after.make_token(word_kind(after.lexeme())), after)
    }

    /// The rest of a string whose opening `"` has been read: up to and with
    /// the next `"`, counting the lines it spans. Without a closing `"` the
    /// rest of the source is taken and the token is an error.
    pub open spec fn make_string(self) -> (TokenView, ScannerView) {
        let quote = quote_pos(self.source, self.current);
        let line = later_line(self.line, newlines(self.source, self.current, quote));
        if quote >= self.source.len() {
            let after = ScannerView { current: quote, line, ..self };
            (after.error_token("Unterminated String"@), after)
        } else {
            let after = ScannerView { current: quote + 1, line, ..self };
            (after.make_token(TokenType::String), after)
        }
    }

    /// The next token and the state behind it.
    pub open spec fn scan(self) -> (TokenView, ScannerView) {
        let blank = blank_end(self.source, self.current);
        let begun = ScannerView { start: blank, current: blank, ..self };
        if begun.is_at_end() {
            (TokenView { token_type: TokenType::EOF, lexme: Seq::empty(), line: begun.line }, begun)
        } else {
            let c = begun.source[begun.current];
            let read = begun.moved_to(begun.current + 1);
            if is_digit(c) {
                read.make_number()
            } else if is_letter(c) {
                read.make_identifier()
            } else if c == '"' {
                read.make_string()
            } else if c == '\n' {
                let after = ScannerView { line: later_line(read.line, 1), ..read };
                (after.make_token(TokenType::Semicolon), after)
            } else {
                match punctuation(c) {
                    Some(kind) => match with_equals(kind) {
                        Some(pair) if read.peek_n(0) == '=' => {
                            let after = read.moved_to(read.current + 1);
                            (after.make_token(pair), after)
                        },
                        _ => (read.make_token(kind), read),
                    },
                    None => (read.error_token("Unexpected character: "@.push(c)), read),
                }
            }
        }
    }
}

/// A word that agrees with a reserved word in its first `skip` characters is
/// that reserved word exactly when it is as long and ends in the same `rest`.
proof fn lemma_rest_decides(word: Seq<char>, full: Seq<char>, skip: int, rest: Seq<char>)
    requires
        0 <= skip <= full.len(),
        skip <= word.len(),
        forall|i: int| 0 <= i < skip ==> word[i] == full[i],
        full.subrange(skip, full.len() as int) =~= rest,
    ensures
        word == full <==> (word.len() == skip + rest.len() && word.subrange(skip, word.len() as int) == rest),
{
    if word.len() == skip + rest.len() && word.subrange(skip, word.len() as int) == rest {
        assert forall|i: int| 0 <= i < word.len() implies word[i] == full[i] by {
            if i >= skip {
                assert(word[i] == word.subrange(skip, word.len() as int)[i - skip]);
                assert(full[i] == full.subrange(skip, full.len() as int)[i - skip]);
            }
        }
        assert(word =~= full);
    }
}

/// The scans of a run stay inside the source and never move back.
pub proof fn lemma_run_bounds(source: Seq<char>, pos: int)
    requires
        0 <= pos <= source.len(),
    ensures
        pos <= line_end(source, pos) <= source.len(),
        pos <= blank_end(source, pos) <= source.len(),
        pos <= digits_end(source, pos) <= source.len(),
        pos <= number_end(source, pos) <= source.len(),
        pos <= word_end(source, pos) <= source.len(),
        pos <= quote_pos(source, pos) <= source.len(),
    decreases source.len() - pos,
{
    if pos < source.len() {
        lemma_run_bounds(source, pos + 1);
        if pos + 1 < source.len() {
            lemma_run_bounds(source, pos + 2);
        }
    }
    let whole = digits_end(source, pos);
    if whole + 1 < source.len() {
        lemma_digits_bounds(source, whole + 2);
    }
}

proof fn lemma_digits_bounds(source: Seq<char>, pos: int)
    requires
        0 <= pos <= source.len(),
    ensures
        pos <= digits_end(source, pos) <= source.len(),
    decreases source.len() - pos,
{
    if pos < source.len() {
        lemma_digits_bounds(source, pos + 1);
    }
}

/// Where blanks end, no blank and no comment begins: skipping again goes
/// nowhere.
pub proof fn lemma_blank_end_fixed(source: Seq<char>, pos: int)
    requires
        0 <= pos <= source.len(),
    ensures
        blank_end(source, blank_end(source, pos)) == blank_end(source, pos),
    decreases source.len() - pos,
{
    if pos < source.len() && is_blank(source[pos]) {
        lemma_blank_end_fixed(source, pos + 1);
    } else if pos + 1 < source.len() && source[pos] == '/' && source[pos + 1] == '/' {
        lemma_line_end_fixed(source, pos + 2);
    }
}

proof fn lemma_line_end_fixed(source: Seq<char>, pos: int)
    requires
        0 <= pos <= source.len(),
    ensures
        pos <= line_end(source, pos) <= source.len(),
        line_end(source, pos) < source.len() ==> source[line_end(source, pos)] == '\n',
    decreases source.len() - pos,
{
    if pos < source.len() && source[pos] != '\n' {
        lemma_line_end_fixed(source, pos + 1);
    }
}

/// Every scan leaves a well-formed state over the same source and never
/// moves back. A token other than `EOF` takes at least one character; `EOF`
/// comes exactly when only blanks and a comment are left, and leaves the
/// cursor at the end.
pub proof fn lemma_scan_progress(state: ScannerView)
    requires
        state.wf(),
    ensures
        ({
            let (token, after) = state.scan();
            &&& after.wf()
            &&& after.source == state.source
            &&& state.current <= after.start
            &&& after.start == blank_end(state.source, state.current)
            &&& token.token_type != TokenType::EOF ==> after.start < after.current
            &&& token.token_type == TokenType::EOF <==> blank_end(state.source, state.current)
                == state.source.len()
            &&& token.token_type == TokenType::EOF ==> after.is_at_end() && after.start == after.current
                && token.lexme.len() == 0
        }),
{
    let source = state.source;
    lemma_run_bounds(source, state.current);
    let blank = blank_end(source, state.current);
    if blank < source.len() {
        lemma_run_bounds(source, blank + 1);
    }
}

/// A token that is neither an error nor the end of the source carries the
/// text it was read from and the line on which it ends.
pub proof fn lemma_scan_lexeme(state: ScannerView)
    requires
        state.wf(),
    ensures
        ({
            let (token, after) = state.scan();
            token.token_type != TokenType::Error && token.token_type != TokenType::EOF ==> token.lexme
                == after.lexeme() && token.line == after.line
        }),
{
}

/// At the end of the source every scan gives `EOF` and changes nothing but
/// the start of the token.
pub proof fn lemma_scan_at_end(state: ScannerView)
    requires
        state.wf(),
        state.is_at_end(),
    ensures
        state.scan().0.token_type == TokenType::EOF,
        state.scan().1 == (ScannerView { start: state.current, ..state }),
{
}

/// A cursor over source text that hands out one token per call.
pub struct Scanner {
    source: Vec<char>,
    start_index: usize,
    current_index: usize,
    line: i32,
}

impl View for Scanner {
    type V = ScannerView;

    closed spec fn view(&self) -> ScannerView {
        ScannerView {
            source: self.source@,
            start: self.start_index as int,
            current: self.current_index as int,
            line: self.line,
        }
    }
}

impl Scanner {
    pub open spec fn wf(&self) -> bool {
        self@.wf()
    }

    /// A scanner at the start of `source`, on line 1.
    pub fn new(source: String) -> (scanner: Scanner)
        ensures
            scanner@ == (ScannerView { source: source@, start: 0, current: 0, line: 1 }),
            scanner.wf(),
    {
        Scanner { source: chars_of(source.as_str()), start_index: 0, current_index: 0, line: 1 }
    }

    /// Whether all of the source has been read.
    pub fn is_at_end(&self) -> (at_end: bool)
        requires
            self.wf(),
        ensures
            at_end == self@.is_at_end(),
    {
        self.current_index == self.source.len()
    }

    /// Reads the character under the cursor and moves past it.
    pub fn advance(&mut self) -> (c: char)
        requires
            old(self).wf(),
            !old(self)@.is_at_end(),
        ensures
            c == old(self)@.peek_n(0),
            final(self)@ == old(self)@.moved_to(old(self)@.current + 1),
            final(self).wf(),
    {
        let c = self.source[self.current_index];
        assert(self.current_index < self.source.len());
        self.current_index += 1;
        c
    }

    /// Moves past the character under the cursor if it is `expected`.
    pub fn match_char(&mut self, expected: char) -> (matched: bool)
        requires
            old(self).wf(),
        ensures
            matched == (!old(self)@.is_at_end() && old(self)@.peek_n(0) == expected),
            final(self)@ == if matched {
                old(self)@.moved_to(old(self)@.current + 1)
            } else {
                old(self)@
            },
            final(self).wf(),
    {
        if self.is_at_end() {
            return false;
        }
        if self.source[self.current_index] != expected {
            return false;
        }
        assert(self.current_index < self.source.len());
        self.current_index += 1;
        true
    }

    /// The character under the cursor; at the end, the character with code
    /// 0.
    pub fn peek(&self) -> (c: char)
        requires
            self.wf(),
        ensures
            c == self@.peek_n(0),
    {
        self.peek_n(0)
    }

    /// The character behind the one under the cursor.
    pub fn peek_next(&self) -> (c: char)
        requires
            self.wf(),
        ensures
            c == self@.peek_n(1),
    {
        self.peek_n(1)
    }

    /// The character `n` places behind the cursor; past the end, the
    /// character with code 0.
    pub fn peek_n(&self, n: usize) -> (c: char)
        requires
            self.wf(),
        ensures
            c == self@.peek_n(n as int),
    {
        if n < self.source.len() - self.current_index {
            self.source[self.current_index + n]
        } else {
            '\0'
        }
    }

    /// An error token with `message` as its text, on the current line.
    pub fn error_token(&self, message: String) -> (token: Token)
        ensures
            token@ == self@.error_token(message@),
    {
        Token::new(TokenType::Error, message, self.line)
    }

    /// A token of the given kind whose text is what was read since the
    /// start of the token.
    pub fn make_token(&self, token: TokenType) -> (made: Token)
        requires
            self.wf(),
        ensures
            made@ == self@.make_token(token),
    {
        Token::new(token, text_of(&self.source, self.start_index, self.current_index), self.line)
    }
    /// Reads the next token. Malformed text does not stop the scan: it
    /// comes back as an `Error` token, and the end of the source as `EOF`,
    /// again at every later call.
    pub fn scan_token(&mut self) -> (token: Token)
        requires
            old(self).wf(),
        ensures
            (token@, final(self)@) == old(self)@.scan(),
            final(self).wf(),
    {
        self.skip_whitespace();
        self.start_index = self.current_index;
        if self.is_at_end() {
            return Token::new(TokenType::EOF, String::new(), self.line);
        }
        let c = self.advance();
        if Self::is_digit(c) {
            self.make_number()
        } else if Self::is_letter(c) {
            self.make_identifier()
        } else if c == '(' {
            self.make_token(TokenType::LeftParen)
        } else if c == ')' {
            self.make_token(TokenType::RightParen)
        } else if c == '{' {
            self.make_token(TokenType::LeftBrace)
        } else if c == '}' {
            self.make_token(TokenType::RightBrace)
        } else if c == '[' {
            self.make_token(TokenType::LeftBracket)
        } else if c == ']' {
            self.make_token(TokenType::RightBracket)
        } else if c == ';' {
            self.make_token(TokenType::Semicolon)
        } else if c == '\n' {
            if self.line < i32::MAX {
                self.line += 1;
            }
            self.make_token(TokenType::Semicolon)
        } else if c == '.' {
            self.make_token(TokenType::Dot)
        } else if c == ',' {
            self.make_token(TokenType::Comma)
        } else if c == '+' {
            self.make_token(TokenType::Plus)
        } else if c == '-' {
            self.make_token(TokenType::Minus)
        } else if c == '*' {
            self.make_token(TokenType::Star)
        } else if c == '/' {
            self.make_token(TokenType::Slash)
        } else if c == '!' {
            let token = if self.match_char('=') {
                TokenType::BangEq
            } else {
                TokenType::Bang
            };
            self.make_token(token)
        } else if c == '=' {
            let token = if self.match_char('=') {
                TokenType::EqEq
            } else {
                TokenType::EQ
            };
            self.make_token(token)
        } else if c == '<' {
            let token = if self.match_char('=') {
                TokenType::Le
            } else {
                TokenType::Lt
            };
            self.make_token(token)
        } else if c == '>' {
            let token = if self.match_char('=') {
                TokenType::Ge
            } else {
                TokenType::Gt
            };
            self.make_token(token)
        } else if c == '"' {
            self.make_string()
        } else {
            let mut msg = String::from_str("Unexpected character: ");
            push_char(&mut msg, c);
            self.error_token(msg)
        }
    }

    /// Moves past blanks and a `//` comment.
    pub fn skip_whitespace(&mut self)
        requires
            old(self).wf(),
        ensures
            final(self)@ == old(self)@.skip_whitespace(),
            final(self).wf(),
    {
        loop
            invariant
                self.wf(),
                self@.source == old(self)@.source,
                self@.start == old(self)@.start,
                self@.line == old(self)@.line,
                old(self)@.current <= self@.current,
                blank_end(self@.source, self@.current) == blank_end(old(self)@.source, old(self)@.current),
            ensures
                self@ == old(self)@.skip_whitespace(),
                self.wf(),
            decreases self@.remaining(),
        {
            let c = self.peek();
            if c == ' ' || c == '\r' || c == '\t' {
                self.advance();
            } else if c == '/' && self.peek_next() == '/' {
                self.advance();
                self.advance();
                while !self.is_at_end() && self.peek() != '\n'
                    invariant
                        self.wf(),
                        self@.source == old(self)@.source,
                        self@.start == old(self)@.start,
                        self@.line == old(self)@.line,
                        old(self)@.current <= self@.current,
                        line_end(self@.source, self@.current) == blank_end(
                            old(self)@.source,
                            old(self)@.current,
                        ),
                    decreases self@.remaining(),
                {
                    self.advance();
                }
                break ;
            } else {
                break ;
            }
        }
    }

    /// Reads the rest of a string whose opening `"` has been read.
    pub fn make_string(&mut self) -> (token: Token)
        requires
            old(self).wf(),
        ensures
            (token@, final(self)@) == old(self)@.make_string(),
            final(self).wf(),
    {
        let ghost from = self@.current;
        while !self.is_at_end() && self.peek() != '"'
            invariant
                self.wf(),
                self@.source == old(self)@.source,
                self@.start == old(self)@.start,
                from == old(self)@.current,
                from <= self@.current,
                quote_pos(self@.source, self@.current) == quote_pos(self@.source, from),
                self@.line == later_line(old(self)@.line, newlines(self@.source, from, self@.current)),
            decreases self@.remaining(),
        {
            if self.peek() == '\n' && self.line < i32::MAX {
                self.line += 1;
            }
            self.advance();
        }
        if self.is_at_end() {
            return self.error_token(String::from_str("Unterminated String"));
        }
        self.advance();
        self.make_token(TokenType::String)
    }

    /// Reads the rest of a number whose first digit has been read.
    pub fn make_number(&mut self) -> (token: Token)
        requires
            old(self).wf(),
        ensures
            (token@, final(self)@) == old(self)@.make_number(),
            final(self).wf(),
    {
        self.skip_digits();
        if self.peek() == '.' && Self::is_digit(self.peek_next()) {
            self.advance();
            self.skip_digits();
        }
        self.make_token(TokenType::Number)
    }

    fn is_digit(c: char) -> (digit: bool)
        ensures
            digit == is_digit(c),
    {
        '0' <= c && c <= '9'
    }

    fn is_letter(c: char) -> (letter: bool)
        ensures
            letter == is_letter(c),
    {
        ('a' <= c && c <= 'z') || ('A' <= c && c <= 'Z')
    }

    fn skip_digits(&mut self)
        requires
            old(self).wf(),
        ensures
            final(self)@ == old(self)@.moved_to(digits_end(old(self)@.source, old(self)@.current)),
            final(self).wf(),
            old(self)@.current <= final(self)@.current,
    {
        while Self::is_digit(self.peek())
            invariant
                self.wf(),
                self@.source == old(self)@.source,
                self@.start == old(self)@.start,
                self@.line == old(self)@.line,
                old(self)@.current <= self@.current,
                digits_end(self@.source, self@.current) == digits_end(old(self)@.source, old(self)@.current),
            decreases self@.remaining(),
        {
            self.advance();
        }
    }

    /// Reads the rest of a word whose first letter has been read.
    pub fn make_identifier(&mut self) -> (token: Token)
        requires
            old(self).wf(),
        ensures
            (token@, final(self)@) == old(self)@.make_identifier(),
            final(self).wf(),
    {
        while Self::is_letter(self.peek()) || Self::is_digit(self.peek())
            invariant
                self.wf(),
                self@.source == old(self)@.source,
                self@.start == old(self)@.start,
                self@.line == old(self)@.line,
                old(self)@.current <= self@.current,
                word_end(self@.source, self@.current) == word_end(old(self)@.source, old(self)@.current),
            decreases self@.remaining(),
        {
            self.advance();
        }
        let id_type = self.identifier_type();
        self.make_token(id_type)
    }

    /// The kind of the word read so far. The first letters choose the one
    /// reserved word it can be; the rest has to match it to the end.
    pub fn identifier_type(&self) -> (kind: TokenType)
        requires
            self.wf(),
        ensures
            kind == word_kind(self@.lexeme()),
    {
        let ghost word = self@.lexeme();
        let length = self.current_index - self.start_index;
        if length == 0 {
            return TokenType::Identifier;
        }
        let first = self.source[self.start_index];
        assert(word[0] == first);
        if first == 'c' {
            proof {
                reveal_strlit("lass");
                lemma_rest_decides(word, seq!['c', 'l', 'a', 's', 's'], 1, "lass"@);
            }
            self.match_keyword(1, "lass", TokenType::Class)
        } else if first == 'e' {
            proof {
                reveal_strlit("lse");
                lemma_rest_decides(word, seq!['e', 'l', 's', 'e'], 1, "lse"@);
            }
            self.match_keyword(1, "lse", TokenType::Else)
        } else if first == 'i' {
            proof {
                reveal_strlit("f");
                lemma_rest_decides(word, seq!['i', 'f'], 1, "f"@);
            }
            self.match_keyword(1, "f", TokenType::If)
        } else if first == 'n' {
            proof {
                reveal_strlit("ull");
                lemma_rest_decides(word, seq!['n', 'u', 'l', 'l'], 1, "ull"@);
            }
            self.match_keyword(1, "ull", TokenType::Null)
        } else if first == 'r' {
            proof {
                reveal_strlit("eturn");
                lemma_rest_decides(word, seq!['r', 'e', 't', 'u', 'r', 'n'], 1, "eturn"@);
            }
            self.match_keyword(1, "eturn", TokenType::Return)
        } else if first == 's' {
            proof {
                reveal_strlit("uper");
                lemma_rest_decides(word, seq!['s', 'u', 'p', 'e', 'r'], 1, "uper"@);
            }
            self.match_keyword(1, "uper", TokenType::Super)
        } else if first == 'w' {
            proof {
                reveal_strlit("hile");
                lemma_rest_decides(word, seq!['w', 'h', 'i', 'l', 'e'], 1, "hile"@);
            }
            self.match_keyword(1, "hile", TokenType::While)
        } else if first == 'f' {
            if length > 1 {
                let second = self.source[self.start_index + 1];
                assert(word[1] == second);
                if second == 'a' {
                    proof {
                        reveal_strlit("lse");
                        lemma_rest_decides(word, seq!['f', 'a', 'l', 's', 'e'], 2, "lse"@);
                    }
                    self.match_keyword(2, "lse", TokenType::False)
                } else if second == 'u' {
                    proof {
                        reveal_strlit("n");
                        lemma_rest_decides(word, seq!['f', 'u', 'n'], 2, "n"@);
                    }
                    self.match_keyword(2, "n", TokenType::Fun)
                } else if second == 'o' {
                    proof {
                        reveal_strlit("r");
                        lemma_rest_decides(word, seq!['f', 'o', 'r'], 2, "r"@);
                    }
                    self.match_keyword(2, "r", TokenType::For)
                } else {
                    TokenType::Identifier
                }
            } else {
                TokenType::Identifier
            }
        } else if first == 'v' {
            if length > 2 {
                let second = self.source[self.start_index + 1];
                let third = self.source[self.start_index + 2];
                assert(word[1] == second);
                assert(word[2] == third);
                if second == 'a' && third == 'r' {
                    proof {
                        reveal_strlit("r");
                        lemma_rest_decides(word, seq!['v', 'a', 'r'], 2, "r"@);
                    }
                    self.match_keyword(2, "r", TokenType::Var)
                } else if second == 'a' && third == 'l' {
                    proof {
                        reveal_strlit("l");
                        lemma_rest_decides(word, seq!['v', 'a', 'l'], 2, "l"@);
                    }
                    self.match_keyword(2, "l", TokenType::Val)
                } else {
                    TokenType::Identifier
                }
            } else {
                TokenType::Identifier
            }
        } else {
            TokenType::Identifier
        }
    }

    /// `return_type` where the word read so far is `start_index` characters
    /// followed by exactly `rest`, else `Identifier`.
    pub fn match_keyword(&self, start_index: usize, rest: &str, return_type: TokenType) -> (kind: TokenType)
        requires
            self.wf(),
        ensures
            kind == if self@.lexeme().len() == start_index + rest@.len() && self@.lexeme().subrange(
                start_index as int,
                self@.lexeme().len() as int,
            ) == rest@ {
                return_type
            } else {
                TokenType::Identifier
            },
    {
        let length = self.current_index - self.start_index;
        let rest_length = rest.unicode_len();
        if length < start_index || length - start_index != rest_length {
            return TokenType::Identifier;
        }
        let from = self.start_index + start_index;
        let ghost tail = self@.lexeme().subrange(start_index as int, length as int);
        let mut i: usize = 0;
        while i < rest_length
            invariant
                self.wf(),
                i <= rest_length == rest@.len(),
                length == self.current_index - self.start_index,
                length == start_index + rest_length,
                from == self.start_index + start_index,
                tail == self@.lexeme().subrange(start_index as int, length as int),
                forall|k: int| 0 <= k < i ==> tail[k] == rest@[k],
            decreases rest_length - i,
        {
            if self.source[from + i] != rest.get_char(i) {
                assert(tail[i as int] != rest@[i as int]);
                return TokenType::Identifier;
            }
            i += 1;
        }
        assert(tail =~= rest@);
        return_type
    }
}

} // verus!