//! What a source text means: the expression that it is read as, and the
//! value of that expression.

use crate::opcode::OpCode;
use crate::parser::{rule_for, ParseFn, ParserView, Pass, Precedence};
use crate::scanner::ScannerView;
use crate::token::{TokenType, TokenView};
use crate::value::Value;
use crate::vm::apply;
use vstd::prelude::*;

verus! {

/// An arithmetic expression. Parentheses leave no trace in it: they only
/// decide its shape.
pub enum Expr {
    /// A literal, by its value.
    Number(Value),
    /// The negation of an expression.
    Negate(Box<Expr>),
    /// An arithmetic instruction with its left and its right operand.
    Binary(OpCode, Box<Expr>, Box<Expr>),
}

impl Expr {
    /// The value of the expression.
    pub open spec fn value(self) -> Value
        decreases self,
    {
        match self {
            Expr::Number(value) => value,
            Expr::Negate(operand) => operand.value().spec_negated(),
            Expr::Binary(opcode, left, right) => apply(opcode, left.value(), right.value()),
        }
    }

    /// The number of literals in the expression.
    pub open spec fn literals(self) -> nat
        decreases self,
    {
        match self {
            Expr::Number(_) => 1,
            Expr::Negate(operand) => operand.literals(),
            Expr::Binary(_, left, right) => left.literals() + right.literals(),
        }
    }

    /// The literals of the expression, from left to right.
    pub open spec fn constants(self) -> Seq<Value>
        decreases self,
    {
        match self {
            Expr::Number(value) => seq![value],
            Expr::Negate(operand) => operand.constants(),
            Expr::Binary(_, left, right) => left.constants() + right.constants(),
        }
    }

    /// The code of the expression: operands before their operator, each
    /// literal loaded from its place in the pool, where the literals are
    /// numbered from `first` on, from left to right.
    pub open spec fn code(self, first: int) -> Seq<u8>
        decreases self,
    {
        match self {
            Expr::Number(_) => seq![OpCode::OpConstant.byte(), first as u8],
            Expr::Negate(operand) => operand.code(first).push(OpCode::OpNegate.byte()),
            Expr::Binary(opcode, left, right) => (left.code(first) + right.code(first + left.literals())).push(
                opcode.byte(),
            ),
        }
    }

    /// The length of the code of the expression.
    pub open spec fn size(self) -> nat
        decreases self,
    {
        match self {
            Expr::Number(_) => 2,
            Expr::Negate(operand) => operand.size() + 1,
            Expr::Binary(_, left, right) => left.size() + right.size() + 1,
        }
    }
}

impl Pass {
    /// The number that the token read last is the literal of.
    pub open spec fn tree_number(self) -> Option<Expr> {
        match Value::spec_parse(self.parser.previous.lexme) {
            Some(value) => Some(Expr::Number(value)),
            None => None,
        }
    }

    /// The expression that `grouping` reads: the one between the
    /// parentheses.
    pub open spec fn tree_grouping(self) -> Option<Expr>
        decreases self.measure(), 2nat,
    {
        self.tree(Precedence::Assignment)
    }

    /// The expression that `unary` reads: the negation of the operand.
    pub open spec fn tree_unary(self) -> Option<Expr>
        decreases self.measure(), 1nat,
    {
        match self.tree(Precedence::Unary) {
            Some(operand) => if self.parser.previous.token_type == TokenType::Minus {
                Some(Expr::Negate(Box::new(operand)))
            } else {
                Some(operand)
            },
            None => None,
        }
    }

    /// The expression that `binary` reads, given the left operand: the
    /// operator read last, applied to `left` and to the operand that
    /// follows.
    pub open spec fn tree_binary(self, left: Expr) -> Option<Expr>
        decreases self.measure(), 1nat,
    {
        let operator = self.parser.previous.token_type;
        match self.tree(rule_for(operator).precedence.next()) {
            Some(right) => match operator {
                TokenType::Plus => Some(Expr::Binary(OpCode::OpAdd, Box::new(left), Box::new(right))),
                TokenType::Minus => Some(Expr::Binary(OpCode::OpSubtract, Box::new(left), Box::new(right))),
                TokenType::Star => Some(Expr::Binary(OpCode::OpMultiply, Box::new(left), Box::new(right))),
                TokenType::Slash => Some(Expr::Binary(OpCode::OpDivide, Box::new(left), Box::new(right))),
                _ => None,
            },
            None => None,
        }
    }

    /// The expression that a prefix rule reads.
    pub open spec fn tree_prefix(self, rule: ParseFn) -> Option<Expr>
        decreases self.measure(), 3nat,
    {
        match rule {
            ParseFn::Grouping => self.tree_grouping(),
            ParseFn::Unary => self.tree_unary(),
            ParseFn::Number => self.tree_number(),
            ParseFn::Binary => None,
        }
    }

    /// The expression that `infix_loop` reads, given what stands to the left
    /// of the next operator: each operator that binds tightly enough takes
    /// all that was read before it as its left operand.
    pub open spec fn tree_infix(self, precedence: Precedence, left: Expr) -> Option<Expr>
        decreases self.measure(), 0nat,
    {
        let rule = rule_for(self.parser.current.token_type);
        if precedence.level() <= rule.precedence.level() {
            let read = self.advance();
            if 0 <= read.measure() < self.measure() {
                match rule.infix {
                    Some(infix) => {
                        let applied = read.apply(infix);
                        match read.tree_binary(left) {
                            Some(joined) => if 0 <= applied.measure() < self.measure() {
                                applied.tree_infix(precedence, joined)
                            } else {
                                None
                            },
                            None => None,
                        }
                    },
                    None => None,
                }
            } else {
                None
            }
        } else {
            Some(left)
        }
    }

    /// The expression that `parse_precedence` reads from the tokens that
    /// come next; none where they start no expression. It is read by the
    /// same rules as the code is compiled, and is the meaning of the source
    /// wherever the compilation ends without an error.
    pub open spec fn tree(self, precedence: Precedence) -> Option<Expr>
        decreases self.measure(), 0nat,
    {
        let read = self.advance();
        match rule_for(read.parser.previous.token_type).prefix {
            None => None,
            Some(prefix) => if 0 <= read.measure() < self.measure() {
                let after = read.apply(prefix);
                match read.tree_prefix(prefix) {
                    Some(left) => if 0 <= after.measure() < self.measure() {
                        after.tree_infix(precedence, left)
                    } else {
                        None
                    },
                    None => None,
                }
            } else {
                None
            },
        }
    }
}

/// The expression that a whole source text is read as.
pub open spec fn parse(source: Seq<char>) -> Option<Expr> {
    let start = Pass {
        parser: ParserView {
            current: TokenView { token_type: TokenType::EOF, lexme: Seq::empty(), line: 0 },
            previous: TokenView { token_type: TokenType::EOF, lexme: Seq::empty(), line: 0 },
            had_error: false,
            panic_mode: false,
            diagnostics: Seq::empty(),
        },
        scanner: ScannerView { source, start: 0, current: 0, line: 1 },
        chunk: crate::chunk::ChunkView::empty(),
    };
    start.advance().tree(Precedence::Assignment)
}

/// Every expression has a literal, and as many constants as literals.
pub proof fn lemma_expr_shape(expr: Expr)
    ensures
        expr.literals() >= 1,
        expr.constants().len() == expr.literals(),
        expr.code(0).len() == expr.size(),
        expr.size() >= 2,
    decreases expr,
{
    match expr {
        Expr::Number(_) => {},
        Expr::Negate(operand) => {
            lemma_expr_shape(*operand);
            lemma_code_length(*operand, 0);
        },
        Expr::Binary(_, left, right) => {
            lemma_expr_shape(*left);
            lemma_expr_shape(*right);
            lemma_code_length(*left, 0);
            lemma_code_length(*right, left.literals() as int);
        },
    }
}

/// The code of an expression is as long wherever its literals are numbered
/// from.
pub proof fn lemma_code_length(expr: Expr, first: int)
    ensures
        expr.code(first).len() == expr.size(),
    decreases expr,
{
    match expr {
        Expr::Number(_) => {},
        Expr::Negate(operand) => {
            lemma_code_length(*operand, first);
        },
        Expr::Binary(_, left, right) => {
            lemma_code_length(*left, first);
            lemma_code_length(*right, first + left.literals());
        },
    }
}

} // verus!
