use crate::chunk::{extends, Chunk, ChunkView};
use crate::opcode::OpCode;
use crate::scanner::{lemma_scan_progress, Scanner, ScannerView};
use crate::text::{decimal, push_decimal};
use crate::token::{Token, TokenType, TokenView};
use crate::value::Value;
use vstd::prelude::*;
use vstd::std_specs::convert::FromSpecImpl;
use vstd::string::StringExecFns;

verus! {

/// The most constants one chunk may hold.
pub const MAX_CONSTANTS: usize = 255;

/// How tightly an operator binds, from loosest to tightest.
#[derive(Copy, Clone, Debug, PartialEq, Eq, Structural)]
pub enum Precedence {
    /// The level of a token that is no operator.
    Lowest,
    Assignment,
    Or,
    And,
    Eq,
    Comp,
    Term,
    Factor,
    Unary,
    Call,
    Primary,
}

impl Precedence {
    /// The rank of the level, from 0 for `Lowest` to 10 for `Primary`.
    pub open spec fn level(self) -> u8 {
        match self {
            Precedence::Lowest => 0,
            Precedence::Assignment => 1,
            Precedence::Or => 2,
            Precedence::And => 3,
            Precedence::Eq => 4,
            Precedence::Comp => 5,
            Precedence::Term => 6,
            Precedence::Factor => 7,
            Precedence::Unary => 8,
            Precedence::Call => 9,
            Precedence::Primary => 10,
        }
    }

    /// The level of a rank; `Lowest` for a number that is no rank.
    pub open spec fn of_level(level: u8) -> Precedence {
        if level == 1 {
            Precedence::Assignment
        } else if level == 2 {
            Precedence::Or
        } else if level == 3 {
            Precedence::And
        } else if level == 4 {
            Precedence::Eq
        } else if level == 5 {
            Precedence::Comp
        } else if level == 6 {
            Precedence::Term
        } else if level == 7 {
            Precedence::Factor
        } else if level == 8 {
            Precedence::Unary
        } else if level == 9 {
            Precedence::Call
        } else if level == 10 {
            Precedence::Primary
        } else {
            Precedence::Lowest
        }
    }

    /// The next tighter level; above `Primary` there is none.
    pub open spec fn next(self) -> Precedence {
        Precedence::of_level((self.level() + 1) as u8)
    }
}

impl From<Precedence> for u8 {
    fn from(precedence: Precedence) -> (level: u8) {
        match precedence {
            Precedence::Lowest => 0,
            Precedence::Assignment => 1,
            Precedence::Or => 2,
            Precedence::And => 3,
            Precedence::Eq => 4,
            Precedence::Comp => 5,
            Precedence::Term => 6,
            Precedence::Factor => 7,
            Precedence::Unary => 8,
            Precedence::Call => 9,
            Precedence::Primary => 10,
        }
    }
}

impl FromSpecImpl<Precedence> for u8 {
    open spec fn obeys_from_spec() -> bool {
        true
    }

    open spec fn from_spec(precedence: Precedence) -> u8 {
        precedence.level()
    }
}

impl From<u8> for Precedence {
    fn from(byte: u8) -> (precedence: Precedence) {
        match byte {
            0 => Precedence::Lowest,
            1 => Precedence::Assignment,
            2 => Precedence::Or,
            3 => Precedence::And,
            4 => Precedence::Eq,
            5 => Precedence::Comp,
            6 => Precedence::Term,
            7 => Precedence::Factor,
            8 => Precedence::Unary,
            9 => Precedence::Call,
            10 => Precedence::Primary,
            _ => Precedence::Lowest,
        }
    }
}

impl FromSpecImpl<u8> for Precedence {
    open spec fn obeys_from_spec() -> bool {
        true
    }

    open spec fn from_spec(byte: u8) -> Precedence {
        Precedence::of_level(byte)
    }
}

/// The ranks order the levels totally, and a level is found again from its
/// rank.
pub proof fn lemma_levels_ordered(a: Precedence, b: Precedence)
    ensures
        a.level() <= 10,
        Precedence::of_level(a.level()) == a,
        a.level() == b.level() ==> a == b,
{
}

/// What a rule does with a token.
#[derive(Copy, Clone, Debug, PartialEq, Eq, Structural)]
pub enum ParseFn {
    /// A parenthesised expression.
    Grouping,
    /// A prefix operator and its operand.
    Unary,
    /// An infix operator and its right operand.
    Binary,
    /// A number literal.
    Number,
}

/// The rule of one kind of token: what it does at the start of an
/// expression, what it does after a left operand, and how tightly it binds
/// as an infix operator.
#[derive(Clone, Copy, Debug)]
pub struct ParseRule {
    pub prefix: Option<ParseFn>,
    pub infix: Option<ParseFn>,
    pub precedence: Precedence,
}

impl ParseRule {
    /// The rule with the given parts.
    pub fn new(prefix: Option<ParseFn>, infix: Option<ParseFn>, precedence: Precedence) -> (rule: ParseRule)
        ensures
            rule == (ParseRule { prefix, infix, precedence }),
    {
        ParseRule { prefix, infix, precedence }
    }

    /// The rule of a token that starts no expression and is no operator.
    pub fn empty() -> (rule: ParseRule)
        ensures
            rule == (ParseRule { prefix: None, infix: None, precedence: Precedence::Lowest }),
    {
        ParseRule { prefix: None, infix: None, precedence: Precedence::Lowest }
    }
}

/// The rule table.
pub open spec fn rule_for(token_type: TokenType) -> ParseRule {
    match token_type {
        TokenType::LeftParen => ParseRule {
            prefix: Some(ParseFn::Grouping),
            infix: None,
            precedence: Precedence::Lowest,
        },
        TokenType::Plus => ParseRule { prefix: None, infix: Some(ParseFn::Binary), precedence: Precedence::Term },
        TokenType::Minus => ParseRule {
            prefix: Some(ParseFn::Unary),
            infix: Some(ParseFn::Binary),
            precedence: Precedence::Term,
        },
        TokenType::Star => ParseRule { prefix: None, infix: Some(ParseFn::Binary), precedence: Precedence::Factor },
        TokenType::Slash => ParseRule { prefix: None, infix: Some(ParseFn::Binary), precedence: Precedence::Factor },
        TokenType::Number => ParseRule { prefix: Some(ParseFn::Number), infix: None, precedence: Precedence::Lowest },
        _ => ParseRule { prefix: None, infix: None, precedence: Precedence::Lowest },
    }
}

/// The line that reports an error at a token.
pub open spec fn report(token: TokenView, message: Seq<char>) -> Seq<char> {
    "[line "@ + decimal(token.line as int) + "] Error"@ + (if token.token_type == TokenType::EOF {
        " at end"@
    } else if token.token_type == TokenType::Error {
        Seq::empty()
    } else {
        " at '"@ + token.lexme + "'"@
    }) + ": "@ + message
}

/// The mathematical content of a `Parser`.
pub struct ParserView {
    pub current: TokenView,
    pub previous: TokenView,
    pub had_error: bool,
    pub panic_mode: bool,
    pub diagnostics: Seq<Seq<char>>,
}

impl ParserView {
    /// Reports an error at `token`, unless an earlier error is still
    /// unresolved: then nothing changes.
    pub open spec fn error_at(self, token: TokenView, message: Seq<char>) -> ParserView {
        if self.panic_mode {
            self
        } else {
            ParserView {
                had_error: true,
                panic_mode: true,
                diagnostics: self.diagnostics.push(report(token, message)),
                ..self
            }
        }
    }

    pub open spec fn error_at_current(self, message: Seq<char>) -> ParserView {
        self.error_at(self.current, message)
    }

    pub open spec fn error(self, message: Seq<char>) -> ParserView {
        self.error_at(self.previous, message)
    }

    /// An error has been seen exactly when something has been reported, and
    /// the parser is in panic mode exactly then: nothing ends panic mode.
    pub open spec fn wf(self) -> bool {
        &&& self.had_error <==> self.diagnostics.len() > 0
        &&& self.panic_mode <==> self.had_error
    }
}

/// The next token that is no error, as the one that comes next. Each error
/// token on the way is reported, with its message, at itself. The test of
/// what remains of the source holds of every well-formed scanner: it is
/// there to show that the definition ends.
pub open spec fn next_token(parser: ParserView, scanner: ScannerView) -> (ParserView, ScannerView)
    decreases scanner.remaining(),
{
    let (token, after) = scanner.scan();
    let read = ParserView { current: token, ..parser };
    if token.token_type == TokenType::Error && 0 <= after.remaining() < scanner.remaining() {
        next_token(read.error_at_current(token.lexme), after)
    } else {
        (read, after)
    }
}

/// The token that came next becomes the one read last, and the next token
/// that is no error comes next.
pub open spec fn advance(parser: ParserView, scanner: ScannerView) -> (ParserView, ScannerView) {
    next_token(ParserView { previous: parser.current, ..parser }, scanner)
}

/// Reads the next token if it is of the kind asked for; else reports
/// `message` at it.
pub open spec fn consume(parser: ParserView, scanner: ScannerView, token_type: TokenType, message: Seq<char>) -> (
    ParserView,
    ScannerView,
) {
    if parser.current.token_type == token_type {
        advance(parser, scanner)
    } else {
        (parser.error_at_current(message), scanner)
    }
}

/// Adds `value` to the pool and gives the operand byte that names it. Where
/// the pool then holds more than `MAX_CONSTANTS`, that is reported and the
/// operand is 0.
pub open spec fn make_constant(parser: ParserView, chunk: ChunkView, value: Value) -> (OpCode, ParserView, ChunkView) {
    if chunk.constants.len() >= MAX_CONSTANTS {
        (OpCode::Index(0), parser.error("too many constants in one unit"@), chunk.add_constant(value))
    } else {
        (OpCode::Index(chunk.constants.len() as u8), parser, chunk.add_constant(value))
    }
}

/// Adds `value` to the pool and writes the instruction that loads it, on the
/// line of the token that was read last.
pub open spec fn emit_constant(parser: ParserView, chunk: ChunkView, value: Value) -> (ParserView, ChunkView) {
    let (operand, reported, added) = make_constant(parser, chunk, value);
    (
        reported,
        added.write(OpCode::OpConstant, reported.previous.line).write(operand, reported.previous.line),
    )
}

/// The operand that `make_constant` gives always names a constant of the
/// pool that it leaves.
pub proof fn lemma_operand_in_pool(parser: ParserView, chunk: ChunkView, value: Value)
    ensures
        ({
            let (operand, _, after) = make_constant(parser, chunk, value);
            &&& operand matches OpCode::Index(index)
            &&& index < after.constants.len()
            &&& after.constants.len() <= MAX_CONSTANTS ==> after.constants[index as int] == value
        }),
{
}

/// How far a compilation is from its end: it falls with every token read,
/// and nothing raises it.
pub open spec fn measure(parser: ParserView, scanner: ScannerView) -> int {
    2 * scanner.remaining() + if parser.current.token_type == TokenType::EOF {
        0int
    } else {
        1int
    }
}

/// The state of one compilation: the parser, the scanner that feeds it and
/// the chunk that it fills.
pub struct Pass {
    pub parser: ParserView,
    pub scanner: ScannerView,
    pub chunk: ChunkView,
}

impl Pass {
    /// How far the pass is from its end.
    pub open spec fn measure(self) -> int {
        measure(self.parser, self.scanner)
    }

    pub open spec fn advance(self) -> Pass {
        let (parser, scanner) = advance(self.parser, self.scanner);
        Pass { parser, scanner, ..self }
    }

    pub open spec fn consume(self, token_type: TokenType, message: Seq<char>) -> Pass {
        let (parser, scanner) = consume(self.parser, self.scanner, token_type, message);
        Pass { parser, scanner, ..self }
    }

    pub open spec fn error(self, message: Seq<char>) -> Pass {
        Pass { parser: self.parser.error(message), ..self }
    }

    pub open spec fn emit_byte(self, opcode: OpCode) -> Pass {
        Pass { chunk: self.chunk.write(opcode, self.parser.previous.line), ..self }
    }

    /// Adds `value` to the pool and emits the instruction that loads it.
    pub open spec fn emit_constant(self, value: Value) -> Pass {
        let (parser, chunk) = emit_constant(self.parser, self.chunk, value);
        Pass { parser, chunk, ..self }
    }

    /// A number: the token read last is its literal.
    pub open spec fn number(self) -> Pass {
        match Value::spec_parse(self.parser.previous.lexme) {
            Some(value) => self.emit_constant(value),
            None => self.error("invalid number"@),
        }
    }

    /// One expression: its operators bind as tightly as `Assignment` at
    /// least.
    pub open spec fn expression(self) -> Pass
        decreases self.measure(), 1nat,
    {
        self.parse_precedence(Precedence::Assignment)
    }

    /// A parenthesised expression: the `(` has been read.
    pub open spec fn grouping(self) -> Pass
        decreases self.measure(), 2nat,
    {
        self.expression().consume(TokenType::RightParen, "Expect ')' after expression."@)
    }

    /// A prefix operator, read last, with its operand, which binds as
    /// tightly as `Unary` at least.
    pub open spec fn unary(self) -> Pass
        decreases self.measure(), 1nat,
    {
        let operand = self.parse_precedence(Precedence::Unary);
        if self.parser.previous.token_type == TokenType::Minus {
            operand.emit_byte(OpCode::OpNegate)
        } else {
            operand
        }
    }

    /// An infix operator, read last, with its right operand, which binds
    /// more tightly than the operator: operators of one level group to the
    /// left.
    pub open spec fn binary(self) -> Pass
        decreases self.measure(), 1nat,
    {
        let operator = self.parser.previous.token_type;
        let right = self.parse_precedence(rule_for(operator).precedence.next());
        match operator {
            TokenType::Plus => right.emit_byte(OpCode::OpAdd),
            TokenType::Minus => right.emit_byte(OpCode::OpSubtract),
            TokenType::Star => right.emit_byte(OpCode::OpMultiply),
            TokenType::Slash => right.emit_byte(OpCode::OpDivide),
            _ => right,
        }
    }

    /// What a rule of the table does.
    pub open spec fn apply(self, rule: ParseFn) -> Pass
        decreases self.measure(), 3nat,
    {
        match rule {
            ParseFn::Grouping => self.grouping(),
            ParseFn::Unary => self.unary(),
            ParseFn::Binary => self.binary(),
            ParseFn::Number => self.number(),
        }
    }

    /// The infix operators that follow a left operand, as long as they bind
    /// as tightly as `precedence` at least, each with its right operand.
    /// The two tests of the measure hold of every well-formed pass: they are
    /// there to show that the definition ends.
    pub open spec fn infix_loop(self, precedence: Precedence) -> Pass
        decreases self.measure(), 0nat,
    {
        let rule = rule_for(self.parser.current.token_type);
        if precedence.level() <= rule.precedence.level() {
            let read = self.advance();
            if 0 <= read.measure() < self.measure() {
                let applied = match rule.infix {
                    Some(infix) => read.apply(infix),
                    None => read,
                };
                if 0 <= applied.measure() < self.measure() {
                    applied.infix_loop(precedence)
                } else {
                    applied
                }
            } else {
                read
            }
        } else {
            self
        }
    }

    /// An expression whose operators bind as tightly as `precedence` at
    /// least: what the next token starts, by its prefix rule, then the infix
    /// operators behind it. A token without a prefix rule starts none, which
    /// is reported. The two tests of the measure hold of every well-formed
    /// pass: they are there to show that the definition ends.
    pub open spec fn parse_precedence(self, precedence: Precedence) -> Pass
        decreases self.measure(), 0nat,
    {
        let read = self.advance();
        match rule_for(read.parser.previous.token_type).prefix {
            None => read.error("expected expression"@),
            Some(prefix) => if 0 <= read.measure() < self.measure() {
                let left = read.apply(prefix);
                if 0 <= left.measure() < self.measure() {
                    left.infix_loop(precedence)
                } else {
                    left
                }
            } else {
                read
            },
        }
    }
}

/// The whole compilation of a source text into `chunk`: one expression,
/// then the end of the source, then a return.
pub open spec fn compile(source: Seq<char>, chunk: ChunkView) -> Pass {
    let start = Pass {
        parser: ParserView {
            current: TokenView { token_type: TokenType::EOF, lexme: Seq::empty(), line: 0 },
            previous: TokenView { token_type: TokenType::EOF, lexme: Seq::empty(), line: 0 },
            had_error: false,
            panic_mode: false,
            diagnostics: Seq::empty(),
        },
        scanner: ScannerView { source, start: 0, current: 0, line: 1 },
        chunk,
    };
    start.advance().expression().consume(TokenType::EOF, "Expect end of expression."@).emit_byte(OpCode::OpReturn)
}

/// The four tokens that stand between two operands.
pub open spec fn is_operator(token_type: TokenType) -> bool {
    ||| token_type == TokenType::Plus
    ||| token_type == TokenType::Minus
    ||| token_type == TokenType::Star
    ||| token_type == TokenType::Slash
}

/// What the rule table says of every kind of token: only a token that is
/// not the end of the source starts an expression or is an operator; the
/// operators, and no other token, have an infix rule and a level above
/// `Lowest`, and none binds more tightly than `Factor`; no infix rule starts
/// an expression.
pub proof fn lemma_rules(token_type: TokenType)
    ensures
        rule_for(token_type).prefix is Some ==> token_type != TokenType::EOF,
        rule_for(token_type).prefix != Some(ParseFn::Binary),
        rule_for(token_type).precedence != Precedence::Lowest <==> is_operator(token_type),
        rule_for(token_type).infix is Some <==> is_operator(token_type),
        is_operator(token_type) ==> token_type != TokenType::EOF && rule_for(token_type).infix == Some(
            ParseFn::Binary,
        ),
        rule_for(token_type).precedence.level() <= Precedence::Factor.level(),
        rule_for(token_type).precedence.next() != Precedence::Lowest,
{
}

/// What holds between a pass and a later state of it: the scanner is still
/// well formed over the same source, the measure has not risen, an error
/// that was seen stays seen, and what was written is still there.
pub open spec fn follows(before: Pass, after: Pass) -> bool {
    &&& after.scanner.wf()
    &&& after.scanner.source == before.scanner.source
    &&& 0 <= after.measure() <= before.measure()
    &&& before.parser.wf() ==> after.parser.wf()
    &&& before.parser.had_error ==> after.parser.had_error
    &&& before.parser.diagnostics.len() <= after.parser.diagnostics.len()
    &&& extends(before.chunk, after.chunk)
}

/// Looking for the next token keeps the scanner well formed, drops every
/// error token, and ends at the end of the source only with `EOF`.
pub proof fn lemma_next_token(parser: ParserView, scanner: ScannerView)
    requires
        scanner.wf(),
    ensures
        ({
            let (read, after) = next_token(parser, scanner);
            &&& after.wf()
            &&& after.source == scanner.source
            &&& after.remaining() <= scanner.remaining()
            &&& read.current.token_type != TokenType::Error
            &&& read.current.token_type != TokenType::EOF ==> after.remaining() < scanner.remaining()
            &&& read.previous == parser.previous
            &&& parser.wf() ==> read.wf()
            &&& parser.had_error ==> read.had_error
            &&& parser.diagnostics.len() <= read.diagnostics.len()
        }),
    decreases scanner.remaining(),
{
    lemma_scan_progress(scanner);
    let (token, after) = scanner.scan();
    let read = ParserView { current: token, ..parser };
    if token.token_type == TokenType::Error {
        lemma_next_token(read.error_at_current(token.lexme), after);
    }
}

/// A lexical error marks the compilation as failed: where the next token
/// is an error token, an error has been seen once the parser has read on.
pub proof fn lemma_lexical_error_fails(parser: ParserView, scanner: ScannerView)
    requires
        scanner.wf(),
        parser.wf(),
        scanner.scan().0.token_type == TokenType::Error,
    ensures
        next_token(parser, scanner).0.had_error,
        advance(parser, scanner).0.had_error,
{
    lemma_scan_progress(scanner);
    let (token, after) = scanner.scan();
    lemma_next_token((ParserView { current: token, ..parser }).error_at_current(token.lexme), after);
    lemma_next_token(
        (ParserView { current: token, previous: parser.current, ..parser }).error_at_current(token.lexme),
        after,
    );
}

/// Reading a token never raises the measure, and lowers it unless the end
/// of the source had been reached before.
pub proof fn lemma_advance(pass: Pass)
    requires
        pass.scanner.wf(),
    ensures
        follows(pass, pass.advance()),
        pass.advance().chunk == pass.chunk,
        pass.advance().parser.previous == pass.parser.current,
        pass.advance().parser.current.token_type != TokenType::Error,
        pass.parser.current.token_type != TokenType::EOF ==> pass.advance().measure() < pass.measure(),
{
    lemma_next_token(ParserView { previous: pass.parser.current, ..pass.parser }, pass.scanner);
}

/// Every step of a compilation leads to a state that follows the one it
/// started from.
pub proof fn lemma_parse_precedence(pass: Pass, precedence: Precedence)
    requires
        pass.scanner.wf(),
    ensures
        follows(pass, pass.parse_precedence(precedence)),
    decreases pass.measure(), 0nat,
{
    lemma_advance(pass);
    let read = pass.advance();
    match rule_for(read.parser.previous.token_type).prefix {
        None => {},
        Some(prefix) => {
            lemma_apply(read, prefix);
            lemma_infix_loop(read.apply(prefix), precedence);
        },
    }
}

/// The infix operators behind a left operand lead to a state that follows
/// the one they started from.
pub proof fn lemma_infix_loop(pass: Pass, precedence: Precedence)
    requires
        pass.scanner.wf(),
    ensures
        follows(pass, pass.infix_loop(precedence)),
    decreases pass.measure(), 0nat,
{
    let rule = rule_for(pass.parser.current.token_type);
    if precedence.level() <= rule.precedence.level() {
        lemma_advance(pass);
        let read = pass.advance();
        if 0 <= read.measure() < pass.measure() {
            let applied = match rule.infix {
                Some(infix) => read.apply(infix),
                None => read,
            };
            if rule.infix is Some {
                lemma_apply(read, rule.infix->0);
            }
            if 0 <= applied.measure() < pass.measure() {
                lemma_infix_loop(applied, precedence);
            }
        }
    }
}

/// Whatever a rule of the table does leads to a state that follows the one
/// it started from.
pub proof fn lemma_apply(pass: Pass, rule: ParseFn)
    requires
        pass.scanner.wf(),
    ensures
        follows(pass, pass.apply(rule)),
    decreases pass.measure(), 3nat,
{
    match rule {
        ParseFn::Grouping => {
            lemma_parse_precedence(pass, Precedence::Assignment);
            let inner = pass.expression();
            if inner.parser.current.token_type == TokenType::RightParen {
                lemma_advance(inner);
            }
        },
        ParseFn::Unary => {
            lemma_parse_precedence(pass, Precedence::Unary);
        },
        ParseFn::Binary => {
            lemma_parse_precedence(pass, rule_for(pass.parser.previous.token_type).precedence.next());
        },
        ParseFn::Number => {},
    }
}

/// A whole compilation ends well formed: an error was seen exactly when
/// something was reported, and the code ends with the return.
pub proof fn lemma_compile(source: Seq<char>, chunk: ChunkView)
    ensures
        ({
            let end = compile(source, chunk);
            &&& end.scanner.wf()
            &&& end.parser.wf()
            &&& end.parser.had_error <==> end.parser.diagnostics.len() > 0
            &&& end.chunk.code.len() > chunk.code.len()
            &&& end.chunk.code.last() == OpCode::OpReturn.byte()
        }),
{
    let start = Pass {
        parser: ParserView {
            current: TokenView { token_type: TokenType::EOF, lexme: Seq::empty(), line: 0 },
            previous: TokenView { token_type: TokenType::EOF, lexme: Seq::empty(), line: 0 },
            had_error: false,
            panic_mode: false,
            diagnostics: Seq::empty(),
        },
        scanner: ScannerView { source, start: 0, current: 0, line: 1 },
        chunk,
    };
    lemma_advance(start);
    lemma_parse_precedence(start.advance(), Precedence::Assignment);
    let parsed = start.advance().expression();
    if parsed.parser.current.token_type == TokenType::EOF {
        lemma_advance(parsed);
    }
}

/// The state of one compilation.
#[derive(Debug)]
pub struct Parser {
    pub current: Token,
    pub previous: Token,
    /// Whether an error was seen in this pass.
    pub had_error: bool,
    /// Whether reports are held back because an error was just reported.
    pub panic_mode: bool,
    /// The reports of this pass, in order.
    pub diagnostics: Vec<String>,
}

impl View for Parser {
    type V = ParserView;

    open spec fn view(&self) -> ParserView {
        ParserView {
            current: self.current@,
            previous: self.previous@,
            had_error: self.had_error,
            panic_mode: self.panic_mode,
            diagnostics: self.diagnostics.deep_view(),
        }
    }
}

impl Parser {
    /// A parser that has read nothing: both tokens stand for the end of the
    /// source, on line 0, until the first `advance`.
    pub fn new() -> (parser: Parser)
        ensures
            parser@ == (ParserView {
                current: TokenView { token_type: TokenType::EOF, lexme: Seq::empty(), line: 0 },
                previous: TokenView { token_type: TokenType::EOF, lexme: Seq::empty(), line: 0 },
                had_error: false,
                panic_mode: false,
                diagnostics: Seq::empty(),
            }),
            parser@.wf(),
    {
        let parser = Parser {
            current: Token::new(TokenType::EOF, String::new(), 0),
            previous: Token::new(TokenType::EOF, String::new(), 0),
            had_error: false,
            panic_mode: false,
            diagnostics: Vec::new(),
        };
        assert(parser.diagnostics.deep_view() =~= Seq::empty());
        parser
    }

    /// Looks up the rule of a kind of token.
    pub fn get_rule(&self, token_type: TokenType) -> (rule: ParseRule)
        ensures
            rule == rule_for(token_type),
    {
        let index = usize::from(token_type);
        if index == 0 {
            ParseRule::new(Some(ParseFn::Grouping), None, Precedence::Lowest)
        } else if index == 8 {
            ParseRule::new(None, Some(ParseFn::Binary), Precedence::Term)
        } else if index == 9 {
            ParseRule::new(Some(ParseFn::Unary), Some(ParseFn::Binary), Precedence::Term)
        } else if index == 10 || index == 11 {
            ParseRule::new(None, Some(ParseFn::Binary), Precedence::Factor)
        } else if index == 29 {
            ParseRule::new(Some(ParseFn::Number), None, Precedence::Lowest)
        } else {
            ParseRule::empty()
        }
    }

    /// The line that reports `message` at `token`.
    pub fn error_at(token: &Token, message: &str) -> (line: String)
        ensures
            line@ == report(token@, message@),
    {
        let mut line = String::from_str("[line ");
        push_decimal(&mut line, token.line);
        line.append("] Error");
        let ghost head = line@;
        if token.token_type == TokenType::EOF {
            line.append(" at end");
        } else if token.token_type == TokenType::Error {
            assert(line@ =~= head + Seq::<char>::empty());
        } else {
            line.append(" at '");
            line.append(token.lexme.as_str());
            line.append("'");
            assert(line@ =~= head + (" at '"@ + token@.lexme + "'"@));
        }
        line.append(": ");
        line.append(message);
        line
    }

    /// Reports an error at the token that comes next.
    pub fn error_at_current(&mut self, message: String)
        ensures
            final(self)@ == old(self)@.error_at_current(message@),
    {
        if self.panic_mode {
            return ;
        }
        self.panic_mode = true;
        self.had_error = true;
        let line = Parser::error_at(&self.current, message.as_str());
        self.diagnostics.push(line);
        assert(self.diagnostics.deep_view() =~= old(self).diagnostics.deep_view().push(line@));
    }

    /// Reports an error at the token that was read last.
    pub fn error(&mut self, message: String)
        ensures
            final(self)@ == old(self)@.error(message@),
    {
        if self.panic_mode {
            return ;
        }
        self.panic_mode = true;
        self.had_error = true;
        let line = Parser::error_at(&self.previous, message.as_str());
        self.diagnostics.push(line);
        assert(self.diagnostics.deep_view() =~= old(self).diagnostics.deep_view().push(line@));
    }

    /// Writes one byte, on the line of the token that was read last.
    pub fn emit_byte(&self, chunk: &mut Chunk, opcode: OpCode)
        ensures
            final(chunk)@ == old(chunk)@.write(opcode, self@.previous.line),
            old(chunk).wf() ==> final(chunk).wf(),
    {
        chunk.write(opcode, self.previous.line);
    }

    /// Writes two bytes, on the line of the token that was read last.
    pub fn emit_bytes(&self, chunk: &mut Chunk, opcode1: OpCode, opcode2: OpCode)
        ensures
            final(chunk)@ == old(chunk)@.write(opcode1, self@.previous.line).write(opcode2, self@.previous.line),
            old(chunk).wf() ==> final(chunk).wf(),
    {
        self.emit_byte(chunk, opcode1);
        self.emit_byte(chunk, opcode2);
    }

    /// Writes a return.
    pub fn emit_return(&self, chunk: &mut Chunk)
        ensures
            final(chunk)@ == old(chunk)@.write(OpCode::OpReturn, self@.previous.line),
            old(chunk).wf() ==> final(chunk).wf(),
    {
        self.emit_byte(chunk, OpCode::OpReturn);
    }

    /// Ends the chunk with a return.
    pub fn end_compiler(&self, chunk: &mut Chunk)
        ensures
            final(chunk)@ == old(chunk)@.write(OpCode::OpReturn, self@.previous.line),
            old(chunk).wf() ==> final(chunk).wf(),
    {
        self.emit_return(chunk);
    }

    /// Makes the token that came next the one read last, and reads the next
    /// token that is no error. Each error token on the way is reported.
    pub fn advance(&mut self, scanner: &mut Scanner)
        requires
            old(scanner).wf(),
        ensures
            (final(self)@, final(scanner)@) == advance(old(self)@, old(scanner)@),
            final(scanner).wf(),
    {
        std::mem::swap(&mut self.previous, &mut self.current);
        loop
            invariant_except_break
                next_token(self@, scanner@) == advance(old(self)@, old(scanner)@),
            invariant
                scanner.wf(),
            ensures
                (self@, scanner@) == advance(old(self)@, old(scanner)@),
                scanner.wf(),
            decreases scanner@.remaining(),
        {
            proof {
                lemma_scan_progress(scanner@);
            }
            self.current = scanner.scan_token();
            if self.current.token_type != TokenType::Error {
                break ;
            }
            let msg = self.current.lexme.clone();
            self.error_at_current(msg);
        }
    }

    /// Reads the next token if it is of the kind asked for; else reports
    /// `message` at it.
    pub fn consume(&mut self, scanner: &mut Scanner, token_type: TokenType, message: String)
        requires
            old(scanner).wf(),
        ensures
            (final(self)@, final(scanner)@) == consume(old(self)@, old(scanner)@, token_type, message@),
            final(scanner).wf(),
    {
        if self.current.token_type == token_type {
            self.advance(scanner);
        } else {
            self.error_at_current(message);
        }
    }

    /// Adds `value` to the pool and gives the operand byte that names it.
    /// Where the pool then holds more than `MAX_CONSTANTS`, that is reported
    /// and the operand is 0.
    pub fn make_constant(&mut self, chunk: &mut Chunk, value: Value) -> (operand: OpCode)
        ensures
            (operand, final(self)@, final(chunk)@) == make_constant(old(self)@, old(chunk)@, value),
            old(chunk).wf() ==> final(chunk).wf(),
    {
        let constant = chunk.add_constant(value);
        if constant >= MAX_CONSTANTS {
            self.error(String::from_str("too many constants in one unit"));
            return OpCode::Index(0);
        }
        OpCode::Index(constant as u8)
    }

    /// Adds `value` to the pool and emits the instruction that loads it.
    pub fn emit_constant(&mut self, chunk: &mut Chunk, value: Value)
        ensures
            (final(self)@, final(chunk)@) == emit_constant(old(self)@, old(chunk)@, value),
            old(chunk).wf() ==> final(chunk).wf(),
    {
        let constant = self.make_constant(chunk, value);
        self.emit_bytes(chunk, OpCode::OpConstant, constant);
    }

    /// Compiles a number: the token read last is its literal.
    pub fn number(&mut self, scanner: &mut Scanner, chunk: &mut Chunk)
        ensures
            (Pass { parser: final(self)@, scanner: final(scanner)@, chunk: final(chunk)@ }) == (Pass {
                parser: old(self)@,
                scanner: old(scanner)@,
                chunk: old(chunk)@,
            }).number(),
            final(scanner)@ == old(scanner)@,
            old(chunk).wf() ==> final(chunk).wf(),
    {
        match Value::parse(self.previous.lexme.as_str()) {
            Some(value) => {
                self.emit_constant(chunk, value);
            },
            None => {
                self.error(String::from_str("invalid number"));
            },
        }
    }

    /// Compiles one expression.
    pub fn expression(&mut self, scanner: &mut Scanner, chunk: &mut Chunk)
        requires
            old(scanner).wf(),
        ensures
            (Pass { parser: final(self)@, scanner: final(scanner)@, chunk: final(chunk)@ }) == (Pass {
                parser: old(self)@,
                scanner: old(scanner)@,
                chunk: old(chunk)@,
            }).expression(),
            final(scanner).wf(),
            old(chunk).wf() ==> final(chunk).wf(),
        decreases measure(old(self)@, old(scanner)@), 1nat,
    {
        self.parse_precedence(scanner, chunk, Precedence::Assignment);
    }

    /// Compiles a parenthesised expression whose `(` has been read.
    pub fn grouping(&mut self, scanner: &mut Scanner, chunk: &mut Chunk)
        requires
            old(scanner).wf(),
        ensures
            (Pass { parser: final(self)@, scanner: final(scanner)@, chunk: final(chunk)@ }) == (Pass {
                parser: old(self)@,
                scanner: old(scanner)@,
                chunk: old(chunk)@,
            }).grouping(),
            final(scanner).wf(),
            old(chunk).wf() ==> final(chunk).wf(),
        decreases measure(old(self)@, old(scanner)@), 2nat,
    {
        self.expression(scanner, chunk);
        self.consume(scanner, TokenType::RightParen, String::from_str("Expect ')' after expression."));
    }

    /// Compiles the operand of the prefix operator read last, then the
    /// operator.
    pub fn unary(&mut self, scanner: &mut Scanner, chunk: &mut Chunk)
        requires
            old(scanner).wf(),
        ensures
            (Pass { parser: final(self)@, scanner: final(scanner)@, chunk: final(chunk)@ }) == (Pass {
                parser: old(self)@,
                scanner: old(scanner)@,
                chunk: old(chunk)@,
            }).unary(),
            final(scanner).wf(),
            old(chunk).wf() ==> final(chunk).wf(),
        decreases measure(old(self)@, old(scanner)@), 1nat,
    {
        let operator_type = self.previous.token_type;
        self.parse_precedence(scanner, chunk, Precedence::Unary);
        match operator_type {
            TokenType::Minus => {
                self.emit_byte(chunk, OpCode::OpNegate);
            },
            _ => {},
        }
    }

    /// Compiles the right operand of the infix operator read last, then the
    /// operator.
    pub fn binary(&mut self, scanner: &mut Scanner, chunk: &mut Chunk)
        requires
            old(scanner).wf(),
        ensures
            (Pass { parser: final(self)@, scanner: final(scanner)@, chunk: final(chunk)@ }) == (Pass {
                parser: old(self)@,
                scanner: old(scanner)@,
                chunk: old(chunk)@,
            }).binary(),
            final(scanner).wf(),
            old(chunk).wf() ==> final(chunk).wf(),
        decreases measure(old(self)@, old(scanner)@), 1nat,
    {
        let operator_type = self.previous.token_type;
        let rule = self.get_rule(operator_type);
        let new_precedence = Precedence::from(u8::from(rule.precedence) + 1);
        self.parse_precedence(scanner, chunk, new_precedence);
        match operator_type {
            TokenType::Plus => {
                self.emit_byte(chunk, OpCode::OpAdd);
            },
            TokenType::Minus => {
                self.emit_byte(chunk, OpCode::OpSubtract);
            },
            TokenType::Star => {
                self.emit_byte(chunk, OpCode::OpMultiply);
            },
            TokenType::Slash => {
                self.emit_byte(chunk, OpCode::OpDivide);
            },
            _ => {},
        }
    }

    /// Does what a rule of the table names.
    fn apply(&mut self, scanner: &mut Scanner, chunk: &mut Chunk, rule: ParseFn)
        requires
            old(scanner).wf(),
        ensures
            (Pass { parser: final(self)@, scanner: final(scanner)@, chunk: final(chunk)@ }) == (Pass {
                parser: old(self)@,
                scanner: old(scanner)@,
                chunk: old(chunk)@,
            }).apply(rule),
            final(scanner).wf(),
            old(chunk).wf() ==> final(chunk).wf(),
        decreases measure(old(self)@, old(scanner)@), 3nat,
    {
        match rule {
            ParseFn::Grouping => self.grouping(scanner, chunk),
            ParseFn::Unary => self.unary(scanner, chunk),
            ParseFn::Binary => self.binary(scanner, chunk),
            ParseFn::Number => self.number(scanner, chunk),
        }
    }

    /// Compiles an expression whose operators bind as tightly as
    /// `precedence` at least: what the next token starts, by its prefix
    /// rule, then every infix operator behind it that binds tightly enough,
    /// each with its right operand. `precedence` is a level that an operator
    /// can have, so not `Lowest`.
    pub fn parse_precedence(&mut self, scanner: &mut Scanner, chunk: &mut Chunk, precedence: Precedence)
        requires
            old(scanner).wf(),
            precedence != Precedence::Lowest,
        ensures
            (Pass { parser: final(self)@, scanner: final(scanner)@, chunk: final(chunk)@ }) == (Pass {
                parser: old(self)@,
                scanner: old(scanner)@,
                chunk: old(chunk)@,
            }).parse_precedence(precedence),
            final(scanner).wf(),
            old(chunk).wf() ==> final(chunk).wf(),
        decreases measure(old(self)@, old(scanner)@), 0nat,
    {
        let ghost start = Pass { parser: self@, scanner: scanner@, chunk: chunk@ };
        self.advance(scanner);
        proof {
            lemma_advance(start);
        }
        let ghost read = Pass { parser: self@, scanner: scanner@, chunk: chunk@ };
        assert(read == start.advance());
        match self.get_rule(self.previous.token_type).prefix {
            None => {
                self.error(String::from_str("expected expression"));
                return ;
            },
            Some(prefix) => {
                proof {
                    lemma_rules(start.parser.current.token_type);
                    lemma_apply(read, prefix);
                }
                self.apply(scanner, chunk, prefix);
            },
        }
        loop
            invariant_except_break
                (Pass { parser: self@, scanner: scanner@, chunk: chunk@ }).infix_loop(precedence)
                    == start.parse_precedence(precedence),
            invariant
                scanner.wf(),
                precedence != Precedence::Lowest,
                old(chunk).wf() ==> chunk.wf(),
                start.measure() == measure(old(self)@, old(scanner)@),
                0 <= measure(self@, scanner@) < start.measure(),
            ensures
                (Pass { parser: self@, scanner: scanner@, chunk: chunk@ }) == start.parse_precedence(precedence),
            decreases measure(self@, scanner@),
        {
            let ghost before = Pass { parser: self@, scanner: scanner@, chunk: chunk@ };
            let rule = self.get_rule(self.current.token_type);
            if u8::from(precedence) > u8::from(rule.precedence) {
                break ;
            }
            proof {
                lemma_rules(before.parser.current.token_type);
                lemma_advance(before);
            }
            self.advance(scanner);
            let ghost operator = Pass { parser: self@, scanner: scanner@, chunk: chunk@ };
            assert(operator == before.advance());
            match self.get_rule(self.previous.token_type).infix {
                Some(infix) => {
                    self.apply(scanner, chunk, infix);
                    proof {
                        lemma_apply(operator, infix);
                    }
                },
                None => {},
            }
        }
    }
}

} // verus!
