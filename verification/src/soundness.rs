//! What the compiler and the machine owe each other: a source that compiles
//! without an error compiles to the code of the expression that it is read
//! as, and that code runs to its return and returns the expression's value.

use crate::chunk::{extends, lemma_extends_chain, ChunkView};
use crate::expression::{lemma_expr_shape, parse, Expr};
use crate::opcode::OpCode;
use crate::parser::{
    compile, is_operator, lemma_advance, lemma_apply, lemma_infix_loop, lemma_parse_precedence, lemma_rules,
    rule_for, ParseFn, ParserView, Pass, Precedence, MAX_CONSTANTS,
};
use crate::scanner::ScannerView;
use crate::token::{TokenType, TokenView};
use crate::value::Value;
use crate::vm::{apply, Machine, RuntimeErrorKind, STACK_LIMIT};
use vstd::prelude::*;

verus! {

/// The machine as the run from `machine` finds it when it first stands at
/// offset `to`; none where the run halts before or steps over `to`.
pub open spec fn run_to(chunk: ChunkView, machine: Machine, to: int) -> Option<Machine>
    decreases to - machine.ip,
{
    if machine.ip == to {
        Some(machine)
    } else if machine.ip > to {
        None
    } else {
        let (halt, after) = machine.step(chunk);
        if halt is None && machine.ip < after.ip <= to {
            run_to(chunk, after, to)
        } else {
            None
        }
    }
}

/// The code from `from` up to `to` computes `value`: on every stack with
/// `room` free slots it runs from `from` to `to` without halting, and leaves
/// the stack as it was with `value` on top.
pub open spec fn computes(chunk: ChunkView, from: int, to: int, room: int, value: Value) -> bool {
    forall|stack: Seq<Value>|
        stack.len() + room <= STACK_LIMIT ==> #[trigger] run_to(chunk, Machine { ip: from, stack }, to) == Some(
            Machine { ip: to, stack: stack.push(value) },
        )
}

/// Whether an instruction is one of the four that take two operands.
pub open spec fn is_arithmetic(opcode: OpCode) -> bool {
    ||| opcode == OpCode::OpAdd
    ||| opcode == OpCode::OpSubtract
    ||| opcode == OpCode::OpMultiply
    ||| opcode == OpCode::OpDivide
}

/// The chunk holds the code of `expr` from offset `from` on, with the
/// literals of `expr` in the pool from index `first` on.
pub open spec fn holds(chunk: ChunkView, expr: Expr, from: int, first: int) -> bool
    decreases expr,
{
    match expr {
        Expr::Number(value) => {
            &&& 0 <= from
            &&& from + 1 < chunk.code.len()
            &&& chunk.code[from] == OpCode::OpConstant.byte()
            &&& chunk.code[from + 1] == first
            &&& 0 <= first < chunk.constants.len()
            &&& chunk.constants[first] == value
        },
        Expr::Negate(operand) => {
            &&& holds(chunk, *operand, from, first)
            &&& from + operand.size() < chunk.code.len()
            &&& chunk.code[from + operand.size()] == OpCode::OpNegate.byte()
        },
        Expr::Binary(opcode, left, right) => {
            &&& is_arithmetic(opcode)
            &&& holds(chunk, *left, from, first)
            &&& holds(chunk, *right, from + left.size(), first + left.literals())
            &&& from + left.size() + right.size() < chunk.code.len()
            &&& chunk.code[from + left.size() + right.size()] == opcode.byte()
        },
    }
}

/// The chunk is `start` with the code and the literals of `expr` behind it,
/// and the pool is no larger than a chunk's pool may be.
pub open spec fn covers(start: ChunkView, chunk: ChunkView, expr: Expr) -> bool {
    &&& holds(chunk, expr, start.code.len() as int, start.constants.len() as int)
    &&& chunk.code.len() == start.code.len() + expr.size()
    &&& chunk.constants.len() == start.constants.len() + expr.literals()
    &&& chunk.constants.len() <= MAX_CONSTANTS
}

/// What a step of the compiler owes that compiles an expression: where it
/// ends without an error, the tokens it read are an expression, and the
/// chunk is the one it found with the code of that expression behind it.
pub open spec fn compiled(start: ChunkView, after: Pass, tree: Option<Expr>) -> bool {
    !after.parser.had_error ==> tree is Some && covers(start, after.chunk, tree->0)
}

/// Where a run to an offset arrives, it stands at that offset.
pub proof fn lemma_run_to_ends(chunk: ChunkView, machine: Machine, to: int)
    requires
        run_to(chunk, machine, to) is Some,
    ensures
        run_to(chunk, machine, to)->0.ip == to,
        machine.ip <= to,
    decreases to - machine.ip,
{
    if machine.ip < to {
        lemma_run_to_ends(chunk, machine.step(chunk).1, to);
    }
}

/// A run that reaches `mid` and from there `to` reaches `to`.
pub proof fn lemma_run_to_chain(chunk: ChunkView, machine: Machine, mid: int, to: int)
    requires
        run_to(chunk, machine, mid) is Some,
        run_to(chunk, run_to(chunk, machine, mid)->0, to) is Some,
    ensures
        run_to(chunk, machine, to) == run_to(chunk, run_to(chunk, machine, mid)->0, to),
    decreases mid - machine.ip,
{
    lemma_run_to_ends(chunk, machine, mid);
    lemma_run_to_ends(chunk, run_to(chunk, machine, mid)->0, to);
    if machine.ip < mid {
        lemma_run_to_chain(chunk, machine.step(chunk).1, mid, to);
    }
}

/// The whole run goes through every machine that a run to an offset
/// arrives at.
pub proof fn lemma_run_through(chunk: ChunkView, machine: Machine, to: int)
    requires
        run_to(chunk, machine, to) is Some,
    ensures
        machine.run(chunk) == run_to(chunk, machine, to)->0.run(chunk),
    decreases to - machine.ip,
{
    if machine.ip < to {
        let (halt, after) = machine.step(chunk);
        assert(after.ip <= chunk.code.len());
        lemma_run_through(chunk, after, to);
    }
}

/// Code that is held by a chunk is held by every chunk that extends it.
pub proof fn lemma_holds_extends(earlier: ChunkView, later: ChunkView, expr: Expr, from: int, first: int)
    requires
        extends(earlier, later),
        holds(earlier, expr, from, first),
    ensures
        holds(later, expr, from, first),
        0 <= from,
        0 <= first,
        from + expr.size() <= earlier.code.len(),
        first + expr.literals() <= earlier.constants.len(),
    decreases expr,
{
    match expr {
        Expr::Number(_) => {},
        Expr::Negate(operand) => {
            lemma_holds_extends(earlier, later, *operand, from, first);
        },
        Expr::Binary(_, left, right) => {
            lemma_holds_extends(earlier, later, *left, from, first);
            lemma_holds_extends(earlier, later, *right, from + left.size(), first + left.literals());
        },
    }
}

/// The code of an expression computes the value of the expression, in as
/// many slots as the expression has literals.
pub proof fn lemma_holds_computes(chunk: ChunkView, expr: Expr, from: int, first: int)
    requires
        holds(chunk, expr, from, first),
    ensures
        computes(chunk, from, from + expr.size(), expr.literals() as int, expr.value()),
    decreases expr,
{
    let to = from + expr.size();
    lemma_expr_shape(expr);
    match expr {
        Expr::Number(value) => {
            assert forall|stack: Seq<Value>| stack.len() + 1 <= STACK_LIMIT implies #[trigger] run_to(
                chunk,
                Machine { ip: from, stack },
                to,
            ) == Some(Machine { ip: to, stack: stack.push(value) }) by {
                let start = Machine { ip: from, stack };
                let (halt, after) = start.step(chunk);
                assert(halt is None);
                assert(after == Machine { ip: to, stack: stack.push(value) });
                assert(run_to(chunk, after, to) == Some(after));
            }
        },
        Expr::Negate(operand) => {
            lemma_holds_computes(chunk, *operand, from, first);
            let mid = from + operand.size();
            assert forall|stack: Seq<Value>| stack.len() + expr.literals() <= STACK_LIMIT implies #[trigger] run_to(
                chunk,
                Machine { ip: from, stack },
                to,
            ) == Some(Machine { ip: to, stack: stack.push(expr.value()) }) by {
                let start = Machine { ip: from, stack };
                let inner = Machine { ip: mid, stack: stack.push(operand.value()) };
                assert(run_to(chunk, start, mid) == Some(inner));
                let (halt, after) = inner.step(chunk);
                assert(halt is None);
                assert(after.stack =~= stack.push(expr.value()));
                assert(run_to(chunk, after, to) == Some(after));
                assert(run_to(chunk, inner, to) == Some(after));
                lemma_run_to_chain(chunk, start, mid, to);
            }
        },
        Expr::Binary(opcode, left, right) => {
            lemma_expr_shape(*left);
            lemma_expr_shape(*right);
            lemma_holds_computes(chunk, *left, from, first);
            let mid = from + left.size();
            lemma_holds_computes(chunk, *right, mid, first + left.literals());
            let last = mid + right.size();
            assert forall|stack: Seq<Value>| stack.len() + expr.literals() <= STACK_LIMIT implies #[trigger] run_to(
                chunk,
                Machine { ip: from, stack },
                to,
            ) == Some(Machine { ip: to, stack: stack.push(expr.value()) }) by {
                let start = Machine { ip: from, stack };
                let one = Machine { ip: mid, stack: stack.push(left.value()) };
                assert(run_to(chunk, start, mid) == Some(one));
                let two = Machine { ip: last, stack: one.stack.push(right.value()) };
                assert(run_to(chunk, Machine { ip: mid, stack: one.stack }, last) == Some(two));
                lemma_run_to_chain(chunk, start, mid, last);
                let fetched = Machine { ip: last + 1, stack: two.stack };
                assert(OpCode::of_byte(chunk.code[last]) == opcode);
                assert(fetched.pop().0 == Ok::<Value, RuntimeErrorKind>(right.value()));
                assert(fetched.pop().1.stack =~= one.stack);
                assert(fetched.pop().1.pop().0 == Ok::<Value, RuntimeErrorKind>(left.value()));
                assert(fetched.pop().1.pop().1.stack =~= stack);
                assert(fetched.binary(opcode).0 is None);
                let (halt, after) = two.step(chunk);
                assert(halt is None);
                assert(after.stack =~= stack.push(apply(opcode, left.value(), right.value())));
                assert(run_to(chunk, after, to) == Some(after));
                assert(run_to(chunk, two, to) == Some(after));
                lemma_run_to_chain(chunk, start, last, to);
            }
        },
    }
}

/// What a chunk holds of an expression is the expression's code and its
/// constants, byte for byte.
pub proof fn lemma_holds_code(chunk: ChunkView, expr: Expr, from: int, first: int)
    requires
        holds(chunk, expr, from, first),
        first + expr.literals() <= 256,
    ensures
        0 <= from,
        0 <= first,
        from + expr.size() <= chunk.code.len(),
        first + expr.literals() <= chunk.constants.len(),
        chunk.code.subrange(from, from + expr.size()) == expr.code(first),
        chunk.constants.subrange(first, first + expr.literals()) == expr.constants(),
    decreases expr,
{
    lemma_expr_shape(expr);
    match expr {
        Expr::Number(value) => {
            assert(chunk.code.subrange(from, from + 2) =~= expr.code(first));
            assert(chunk.constants.subrange(first, first + 1) =~= expr.constants());
        },
        Expr::Negate(operand) => {
            lemma_holds_code(chunk, *operand, from, first);
            assert(chunk.code.subrange(from, from + expr.size()) =~= chunk.code.subrange(
                from,
                from + operand.size(),
            ).push(OpCode::OpNegate.byte()));
        },
        Expr::Binary(opcode, left, right) => {
            lemma_expr_shape(*left);
            lemma_expr_shape(*right);
            lemma_holds_code(chunk, *left, from, first);
            let mid = from + left.size();
            let next = first + left.literals();
            lemma_holds_code(chunk, *right, mid, next);
            assert(chunk.code.subrange(from, from + expr.size()) =~= (chunk.code.subrange(from, mid)
                + chunk.code.subrange(mid, mid + right.size())).push(opcode.byte()));
            assert(chunk.constants.subrange(first, first + expr.literals()) =~= chunk.constants.subrange(first, next)
                + chunk.constants.subrange(next, next + right.literals()));
        },
    }
}

/// A literal compiles to the load of its value.
pub proof fn lemma_tree_number(pass: Pass)
    requires
        pass.parser.wf(),
    ensures
        compiled(pass.chunk, pass.number(), pass.tree_number()),
{
}

/// Where its compilation ends without an error, what `parse_precedence`
/// read is an expression, and it has put the code of that expression behind
/// the chunk that it found.
pub proof fn lemma_tree(pass: Pass, precedence: Precedence)
    requires
        pass.scanner.wf(),
        pass.parser.wf(),
        precedence != Precedence::Lowest,
    ensures
        compiled(pass.chunk, pass.parse_precedence(precedence), pass.tree(precedence)),
    decreases pass.measure(), 0nat,
{
    lemma_advance(pass);
    let read = pass.advance();
    lemma_rules(read.parser.previous.token_type);
    match rule_for(read.parser.previous.token_type).prefix {
        None => {},
        Some(prefix) => {
            lemma_apply(read, prefix);
            lemma_tree_prefix(read, prefix);
            let after = read.apply(prefix);
            lemma_infix_loop(after, precedence);
            match read.tree_prefix(prefix) {
                Some(left) => {
                    lemma_tree_infix(after, precedence, left, pass.chunk);
                },
                None => {},
            }
        },
    }
}

/// Where the chunk holds the code of what stands to the left, the infix
/// operators that follow leave the code of the expression that they make of
/// it.
pub proof fn lemma_tree_infix(pass: Pass, precedence: Precedence, left: Expr, start: ChunkView)
    requires
        pass.scanner.wf(),
        pass.parser.wf(),
        precedence != Precedence::Lowest,
        extends(start, pass.chunk),
        !pass.parser.had_error ==> covers(start, pass.chunk, left),
    ensures
        compiled(start, pass.infix_loop(precedence), pass.tree_infix(precedence, left)),
    decreases pass.measure(), 0nat,
{
    let rule = rule_for(pass.parser.current.token_type);
    if precedence.level() <= rule.precedence.level() {
        lemma_advance(pass);
        lemma_rules(pass.parser.current.token_type);
        let read = pass.advance();
        assert(rule.infix == Some(ParseFn::Binary));
        assert(0 <= read.measure() < pass.measure());
        assert(read.chunk == pass.chunk);
        lemma_apply(read, ParseFn::Binary);
        lemma_tree_binary(read, left, start);
        let applied = read.binary();
        assert(applied == read.apply(ParseFn::Binary));
        assert(0 <= applied.measure() < pass.measure());
        lemma_extends_chain(start, pass.chunk, applied.chunk);
        lemma_infix_loop(applied, precedence);
        assert(pass.infix_loop(precedence) == applied.infix_loop(precedence));
        match read.tree_binary(left) {
            Some(joined) => {
                assert(pass.tree_infix(precedence, left) == applied.tree_infix(precedence, joined));
                lemma_tree_infix(applied, precedence, joined, start);
            },
            None => {
                assert(applied.parser.had_error);
            },
        }
    }
}

/// Where the chunk holds the code of the left operand, an infix operator
/// leaves the code of the operation: the right operand behind the left one,
/// then the instruction.
pub proof fn lemma_tree_binary(pass: Pass, left: Expr, start: ChunkView)
    requires
        pass.scanner.wf(),
        pass.parser.wf(),
        is_operator(pass.parser.previous.token_type),
        extends(start, pass.chunk),
        !pass.parser.had_error ==> covers(start, pass.chunk, left),
    ensures
        compiled(start, pass.binary(), pass.tree_binary(left)),
    decreases pass.measure(), 1nat,
{
    let level = rule_for(pass.parser.previous.token_type).precedence.next();
    lemma_parse_precedence(pass, level);
    lemma_tree(pass, level);
    let operand = pass.parse_precedence(level);
    let after = pass.binary();
    if !after.parser.had_error {
        let right = pass.tree(level)->0;
        let joined = pass.tree_binary(left)->0;
        assert(after.chunk.code == operand.chunk.code.push(after.chunk.code.last()));
        assert(extends(operand.chunk, after.chunk));
        lemma_extends_chain(pass.chunk, operand.chunk, after.chunk);
        lemma_holds_extends(pass.chunk, after.chunk, left, start.code.len() as int, start.constants.len() as int);
        lemma_holds_extends(
            operand.chunk,
            after.chunk,
            right,
            pass.chunk.code.len() as int,
            pass.chunk.constants.len() as int,
        );
    }
}

/// A prefix operator compiles to the code of its operand with the negation
/// behind it.
pub proof fn lemma_tree_unary(pass: Pass)
    requires
        pass.scanner.wf(),
        pass.parser.wf(),
    ensures
        compiled(pass.chunk, pass.unary(), pass.tree_unary()),
    decreases pass.measure(), 1nat,
{
    lemma_parse_precedence(pass, Precedence::Unary);
    lemma_tree(pass, Precedence::Unary);
    let operand = pass.parse_precedence(Precedence::Unary);
    let after = pass.unary();
    if pass.parser.previous.token_type == TokenType::Minus && !after.parser.had_error {
        assert(after.chunk.code == operand.chunk.code.push(OpCode::OpNegate.byte()));
        assert(extends(operand.chunk, after.chunk));
        lemma_holds_extends(
            operand.chunk,
            after.chunk,
            pass.tree(Precedence::Unary)->0,
            pass.chunk.code.len() as int,
            pass.chunk.constants.len() as int,
        );
    }
}

/// Parentheses compile to the code of what stands between them.
pub proof fn lemma_tree_grouping(pass: Pass)
    requires
        pass.scanner.wf(),
        pass.parser.wf(),
    ensures
        compiled(pass.chunk, pass.grouping(), pass.tree_grouping()),
    decreases pass.measure(), 2nat,
{
    lemma_parse_precedence(pass, Precedence::Assignment);
    lemma_tree(pass, Precedence::Assignment);
    let inner = pass.expression();
    if inner.parser.current.token_type == TokenType::RightParen {
        lemma_advance(inner);
    }
}

/// Whatever starts an expression compiles to the code of the expression
/// that it is read as.
pub proof fn lemma_tree_prefix(pass: Pass, rule: ParseFn)
    requires
        pass.scanner.wf(),
        pass.parser.wf(),
        rule != ParseFn::Binary,
    ensures
        compiled(pass.chunk, pass.apply(rule), pass.tree_prefix(rule)),
    decreases pass.measure(), 3nat,
{
    match rule {
        ParseFn::Grouping => lemma_tree_grouping(pass),
        ParseFn::Unary => lemma_tree_unary(pass),
        ParseFn::Binary => {},
        ParseFn::Number => lemma_tree_number(pass),
    }
}

/// A chunk that holds the code of an expression and a return behind it, and
/// the literals of the expression as its constants, is the code of the
/// expression byte for byte, and its run returns the value of the expression
/// and leaves the stack empty.
pub proof fn lemma_program_runs(chunk: ChunkView, expr: Expr)
    requires
        holds(chunk, expr, 0, 0),
        chunk.code.len() == expr.size() + 1,
        chunk.code.last() == OpCode::OpReturn.byte(),
        chunk.constants.len() == expr.literals(),
        expr.literals() <= STACK_LIMIT,
    ensures
        chunk.code == expr.code(0).push(OpCode::OpReturn.byte()),
        chunk.constants == expr.constants(),
        (Machine { ip: 0, stack: Seq::empty() }).run(chunk) == (
            Ok::<Value, (RuntimeErrorKind, int)>(expr.value()),
            Machine { ip: chunk.code.len() as int, stack: Seq::empty() },
        ),
{
    let to = expr.size() as int;
    lemma_holds_code(chunk, expr, 0, 0);
    assert(chunk.code =~= chunk.code.subrange(0, to).push(OpCode::OpReturn.byte()));
    assert(chunk.constants =~= chunk.constants.subrange(0, expr.literals() as int));
    lemma_holds_computes(chunk, expr, 0, 0);
    let start = Machine { ip: 0, stack: Seq::<Value>::empty() };
    let last = Machine { ip: to, stack: start.stack.push(expr.value()) };
    assert(run_to(chunk, start, to) == Some(last));
    lemma_run_through(chunk, start, to);
    assert(last.stack.drop_last() =~= Seq::<Value>::empty());
    assert(last.run(chunk).0 == Ok::<Value, (RuntimeErrorKind, int)>(expr.value()));
}

/// A source that compiles without an error is an expression, and its chunk
/// is the code of that expression with a return behind it.
pub proof fn lemma_compile_holds(source: Seq<char>)
    ensures
        ({
            let end = compile(source, ChunkView::empty());
            !end.parser.had_error ==> {
                &&& parse(source) matches Some(expr)
                &&& holds(end.chunk, expr, 0, 0)
                &&& end.chunk.code.len() == expr.size() + 1
                &&& end.chunk.code.last() == OpCode::OpReturn.byte()
                &&& end.chunk.constants.len() == expr.literals()
                &&& expr.literals() <= MAX_CONSTANTS
            }
        }),
{
    let begin = Pass {
        parser: ParserView {
            current: TokenView { token_type: TokenType::EOF, lexme: Seq::empty(), line: 0 },
            previous: TokenView { token_type: TokenType::EOF, lexme: Seq::empty(), line: 0 },
            had_error: false,
            panic_mode: false,
            diagnostics: Seq::empty(),
        },
        scanner: ScannerView { source, start: 0, current: 0, line: 1 },
        chunk: ChunkView::empty(),
    };
    lemma_advance(begin);
    let read = begin.advance();
    lemma_parse_precedence(read, Precedence::Assignment);
    lemma_tree(read, Precedence::Assignment);
    let parsed = read.expression();
    if parsed.parser.current.token_type == TokenType::EOF {
        lemma_advance(parsed);
    }
    let checked = parsed.consume(TokenType::EOF, "Expect end of expression."@);
    let end = compile(source, ChunkView::empty());
    assert(end == checked.emit_byte(OpCode::OpReturn));
    assert(end.chunk.code == parsed.chunk.code.push(OpCode::OpReturn.byte()));
    assert(end.chunk.constants == parsed.chunk.constants);
    if !end.parser.had_error {
        assert(!parsed.parser.had_error);
        assert(extends(parsed.chunk, end.chunk));
        lemma_holds_extends(parsed.chunk, end.chunk, parse(source)->0, 0, 0);
    }
}

/// The compiler and the machine agree on what a source means. A source that
/// compiles without an error is an expression; the chunk holds the code of
/// that expression and a return, and the literals of the expression as its
/// constants; and the run of the chunk returns the value of the expression,
/// with no failure on the way and nothing left on the stack.
pub proof fn lemma_compile_meaning(source: Seq<char>)
    ensures
        ({
            let end = compile(source, ChunkView::empty());
            let start = Machine { ip: 0, stack: Seq::empty() };
            !end.parser.had_error ==> {
                &&& parse(source) matches Some(expr)
                &&& end.chunk.code == expr.code(0).push(OpCode::OpReturn.byte())
                &&& end.chunk.constants == expr.constants()
                &&& start.run(end.chunk).0 == Ok::<Value, (RuntimeErrorKind, int)>(expr.value())
                &&& start.run(end.chunk).1 == (Machine { ip: end.chunk.code.len() as int, stack: Seq::empty() })
            }
        }),
{
    lemma_compile_holds(source);
    let end = compile(source, ChunkView::empty());
    if !end.parser.had_error {
        lemma_program_runs(end.chunk, parse(source)->0);
    }
}

} // verus!
