use crate::chunk::{Chunk, ChunkView};
use crate::debug::{Disassemble, Disassembly};
use crate::expression::parse;
use crate::opcode::OpCode;
use crate::parser::{compile, Parser};
use crate::scanner::Scanner;
use crate::soundness::lemma_compile_meaning;
use crate::token::TokenType;
use crate::value::Value;
use vstd::prelude::*;
use vstd::string::StringExecFns;

verus! {

/// The number of slots of the value stack.
pub const STACK_LIMIT: usize = 256;

/// Why a run stopped without a result.
#[derive(Debug, Clone, Copy, PartialEq, Eq, Structural)]
pub enum RuntimeErrorKind {
    /// A push found all slots taken.
    StackOverflow,
    /// A pop found the stack empty.
    StackUnderflow,
    /// The byte where an instruction should start names none.
    UnknownOpcode(u8),
    /// The code ends where the operand of an instruction should stand.
    MissingOperand,
    /// The operand is no index into the constant pool.
    InvalidConstant(u8),
    /// The code ran out before a return.
    MissingReturn,
}

/// A failed run: the cause, the offset of the instruction that failed, and
/// the source line of that offset where the chunk has one.
#[derive(Debug, Clone, Copy, PartialEq, Eq, Structural)]
pub struct RuntimeError {
    pub kind: RuntimeErrorKind,
    pub offset: usize,
    pub line: Option<i32>,
}

/// How `interpret` ended.
#[derive(Debug, Clone, PartialEq, Eq)]
pub enum InterpreterResult {
    /// The program ran and returned this value.
    Success(Value),
    /// The source did not compile; these are the reports, in order.
    CompileError(Vec<String>),
    /// The program compiled and failed while it ran.
    RuntimeError(RuntimeError),
}

/// What a run works on besides the chunk: the offset of the next
/// instruction and the values on the stack, the top one last.
pub struct Machine {
    pub ip: int,
    pub stack: Seq<Value>,
}

impl Machine {
    /// Puts `value` on the stack, unless all slots are taken.
    pub open spec fn push(self, value: Value) -> (Option<RuntimeErrorKind>, Machine) {
        if self.stack.len() >= STACK_LIMIT {
            (Some(RuntimeErrorKind::StackOverflow), self)
        } else {
            (None, Machine { stack: self.stack.push(value), ..self })
        }
    }

    /// Takes the top value off the stack, unless the stack is empty.
    pub open spec fn pop(self) -> (Result<Value, RuntimeErrorKind>, Machine) {
        if self.stack.len() == 0 {
            (Err(RuntimeErrorKind::StackUnderflow), self)
        } else {
            (Ok(self.stack.last()), Machine { stack: self.stack.drop_last(), ..self })
        }
    }

    /// Pops the right operand, then the left one, and pushes what the
    /// instruction makes of them.
    pub open spec fn binary(self, opcode: OpCode) -> (Option<RuntimeErrorKind>, Machine) {
        let (right, first) = self.pop();
        match right {
            Err(kind) => (Some(kind), first),
            Ok(right) => {
                let (left, second) = first.pop();
                match left {
                    Err(kind) => (Some(kind), second),
                    Ok(left) => second.push(apply(opcode, left, right)),
                }
            },
        }
    }

    /// Puts the negation of the top value in its place.
    pub open spec fn negate(self) -> (Option<RuntimeErrorKind>, Machine) {
        if self.stack.len() == 0 {
            (Some(RuntimeErrorKind::StackUnderflow), self)
        } else {
            (None, Machine { stack: self.stack.update(self.stack.len() - 1, self.stack.last().spec_negated()), ..self })
        }
    }

    /// Reads the operand at `ip` as an index into the pool and pushes the
    /// constant found there.
    pub open spec fn load_constant(self, chunk: ChunkView) -> (Option<RuntimeErrorKind>, Machine) {
        if self.ip < 0 || self.ip >= chunk.code.len() {
            (Some(RuntimeErrorKind::MissingOperand), self)
        } else {
            let index = chunk.code[self.ip];
            let read = Machine { ip: self.ip + 1, ..self };
            if index >= chunk.constants.len() {
                (Some(RuntimeErrorKind::InvalidConstant(index)), read)
            } else {
                read.push(chunk.constants[index as int])
            }
        }
    }

    /// One instruction, with the machine that it leaves. `None` where the run
    /// goes on; else the value that the program returned, or why it failed.
    pub open spec fn step(self, chunk: ChunkView) -> (Option<Result<Value, RuntimeErrorKind>>, Machine) {
        if self.ip < 0 || self.ip >= chunk.code.len() {
            (Some(Err(RuntimeErrorKind::MissingReturn)), self)
        } else {
            let opcode = OpCode::of_byte(chunk.code[self.ip]);
            let fetched = Machine { ip: self.ip + 1, ..self };
            match opcode {
                OpCode::OpReturn => {
                    let (value, after) = fetched.pop();
                    (Some(value), after)
                },
                OpCode::Index(byte) => (Some(Err(RuntimeErrorKind::UnknownOpcode(byte))), fetched),
                _ => {
                    let (failure, after) = match opcode {
                        OpCode::OpConstant => fetched.load_constant(chunk),
                        OpCode::OpNegate => fetched.negate(),
                        _ => fetched.binary(opcode),
                    };
                    match failure {
                        Some(kind) => (Some(Err(kind)), after),
                        None => (None, after),
                    }
                },
            }
        }
    }

    /// The run from this machine on, with the machine that it leaves: the
    /// value that the program returned, or why and at which offset it failed.
    pub open spec fn run(self, chunk: ChunkView) -> (Result<Value, (RuntimeErrorKind, int)>, Machine)
        decreases chunk.code.len() - self.ip,
    {
        let (halt, after) = self.step(chunk);
        match halt {
            Some(Ok(value)) => (Ok(value), after),
            Some(Err(kind)) => (Err((kind, self.ip)), after),
            None => if self.ip < after.ip <= chunk.code.len() {
                after.run(chunk)
            } else {
                (Err((RuntimeErrorKind::MissingReturn, after.ip)), after)
            },
        }
    }
}

/// What an arithmetic instruction makes of its operands.
pub open spec fn apply(opcode: OpCode, left: Value, right: Value) -> Value {
    match opcode {
        OpCode::OpAdd => left.spec_plus(right),
        OpCode::OpSubtract => left.spec_minus(right),
        OpCode::OpMultiply => left.spec_times(right),
        OpCode::OpDivide => left.spec_divided_by(right),
        _ => left,
    }
}

/// The source line that a failure at `offset` is reported with: that of the
/// offset, or none where the chunk has no code.
pub open spec fn failure_line(chunk: ChunkView, offset: int) -> Option<i32> {
    if chunk.lines.len() == 0 {
        None
    } else {
        Some(chunk.line_at(offset))
    }
}

/// The result that stands for the end of a run.
pub open spec fn result_of(chunk: ChunkView, end: Result<Value, (RuntimeErrorKind, int)>) -> InterpreterResult {
    match end {
        Ok(value) => InterpreterResult::Success(value),
        Err((kind, offset)) => InterpreterResult::RuntimeError(
            RuntimeError { kind, offset: offset as usize, line: failure_line(chunk, offset) },
        ),
    }
}

/// No step puts more values on the stack than it has slots.
pub proof fn lemma_step_within_limit(chunk: ChunkView, machine: Machine)
    requires
        machine.stack.len() <= STACK_LIMIT,
    ensures
        machine.step(chunk).1.stack.len() <= STACK_LIMIT,
{
}

/// A run that starts within the limit of the stack stays within it to its
/// end.
pub proof fn lemma_run_within_limit(chunk: ChunkView, machine: Machine)
    requires
        machine.stack.len() <= STACK_LIMIT,
    ensures
        machine.run(chunk).1.stack.len() <= STACK_LIMIT,
    decreases chunk.code.len() - machine.ip,
{
    lemma_step_within_limit(chunk, machine);
    let (halt, after) = machine.step(chunk);
    if halt is None && machine.ip < after.ip <= chunk.code.len() {
        lemma_run_within_limit(chunk, after);
    }
}

/// A load that finds the stack full ends the run: the failure is a stack
/// overflow at that instruction, and no value on the stack has changed.
pub proof fn lemma_overflow_is_rejected(chunk: ChunkView, machine: Machine)
    requires
        machine.stack.len() == STACK_LIMIT,
        0 <= machine.ip,
        machine.ip + 1 < chunk.code.len(),
        chunk.code[machine.ip] == OpCode::OpConstant.byte(),
        chunk.code[machine.ip + 1] < chunk.constants.len(),
    ensures
        machine.run(chunk).0 == Err::<Value, (RuntimeErrorKind, int)>((RuntimeErrorKind::StackOverflow, machine.ip)),
        machine.run(chunk).1.stack == machine.stack,
{
}

/// The stack machine. One machine serves many programs, one after the other.
#[derive(Debug, Clone, PartialEq)]
pub struct VM {
    pub chunk: Chunk,
    /// The offset of the next instruction.
    pub ip: usize,
    /// The slots of the stack; those below `stack_top` are in use.
    pub stack: Vec<Value>,
    /// The number of values on the stack.
    pub stack_top: usize,
}

impl VM {
    /// The machine has all its slots, and the cursor lies among them.
    pub open spec fn wf(&self) -> bool {
        &&& self.stack@.len() == STACK_LIMIT
        &&& self.stack_top <= STACK_LIMIT
    }

    /// The state of the run: the next instruction and the values in use.
    pub open spec fn machine(&self) -> Machine {
        Machine { ip: self.ip as int, stack: self.stack@.take(self.stack_top as int) }
    }

    /// A machine with an empty chunk and an empty stack.
    pub fn new() -> (vm: VM)
        ensures
            vm.wf(),
            vm.chunk@ == ChunkView::empty(),
            vm.machine() == (Machine { ip: 0, stack: Seq::empty() }),
    {
        let mut stack: Vec<Value> = Vec::with_capacity(STACK_LIMIT);
        while stack.len() < STACK_LIMIT
            invariant
                stack@.len() <= STACK_LIMIT,
            decreases STACK_LIMIT - stack@.len(),
        {
            stack.push(Value::Number(0));
        }
        let mut vm = VM { chunk: Chunk::new(), ip: 0, stack, stack_top: 0 };
        vm.reset_stack();
        assert(vm.stack@.take(0) =~= Seq::empty());
        vm
    }

    /// Empties the stack.
    pub fn reset_stack(&mut self)
        ensures
            final(self).stack_top == 0,
            final(self).stack == old(self).stack,
            final(self).chunk == old(self).chunk,
            final(self).ip == old(self).ip,
    {
        self.stack_top = 0;
    }

    /// Puts `value` on top of the stack. A full stack is left as it is.
    pub fn push(&mut self, value: Value) -> (pushed: Result<(), RuntimeErrorKind>)
        requires
            old(self).wf(),
        ensures
            final(self).wf(),
            final(self).chunk == old(self).chunk,
            final(self).machine() == old(self).machine().push(value).1,
            match pushed {
                Ok(_) => old(self).machine().push(value).0 is None,
                Err(kind) => old(self).machine().push(value).0 == Some(kind),
            },
    {
        if self.stack_top >= STACK_LIMIT {
            return Err(RuntimeErrorKind::StackOverflow);
        }
        self.stack.set(self.stack_top, value);
        self.stack_top += 1;
        assert(self.stack@.take(self.stack_top as int) =~= old(self).stack@.take(old(self).stack_top as int).push(
            value,
        ));
        Ok(())
    }

    /// Takes the top value off the stack.
    pub fn pop(&mut self) -> (popped: Result<Value, RuntimeErrorKind>)
        requires
            old(self).wf(),
        ensures
            final(self).wf(),
            final(self).chunk == old(self).chunk,
            (popped, final(self).machine()) == old(self).machine().pop(),
    {
        if self.stack_top == 0 {
            return Err(RuntimeErrorKind::StackUnderflow);
        }
        self.stack_top -= 1;
        assert(self.stack@.take(self.stack_top as int) =~= old(self).stack@.take(
            old(self).stack_top as int,
        ).drop_last());
        Ok(self.stack[self.stack_top])
    }

    /// Takes the operands of an arithmetic instruction off the stack: the
    /// right one first, then the left one.
    fn operands(&mut self) -> (popped: Result<(Value, Value), RuntimeErrorKind>)
        requires
            old(self).wf(),
        ensures
            final(self).wf(),
            final(self).chunk == old(self).chunk,
            final(self).ip == old(self).ip,
            match popped {
                Ok((left, right)) => {
                    &&& old(self).machine().pop().0 == Ok::<Value, RuntimeErrorKind>(right)
                    &&& old(self).machine().pop().1.pop().0 == Ok::<Value, RuntimeErrorKind>(left)
                    &&& final(self).machine() == old(self).machine().pop().1.pop().1
                },
                Err(kind) => {
                    let (right, first) = old(self).machine().pop();
                    if right is Err {
                        right == Err::<Value, RuntimeErrorKind>(kind) && final(self).machine() == first
                    } else {
                        first.pop().0 == Err::<Value, RuntimeErrorKind>(kind) && final(self).machine()
                            == first.pop().1
                    }
                },
            },
    {
        let right = match self.pop() {
            Ok(value) => value,
            Err(kind) => {
                return Err(kind);
            },
        };
        let left = match self.pop() {
            Ok(value) => value,
            Err(kind) => {
                return Err(kind);
            },
        };
        Ok((left, right))
    }

    /// The line that a failure at `offset` is reported with.
    fn failure(&self, kind: RuntimeErrorKind, offset: usize) -> (result: InterpreterResult)
        requires
            self.chunk.wf(),
        ensures
            result == result_of(self.chunk@, Err((kind, offset as int))),
    {
        let line = if self.chunk.line_count() == 0 {
            None
        } else {
            Some(self.chunk.get_line(offset))
        };
        InterpreterResult::RuntimeError(RuntimeError { kind, offset, line })
    }

    /// Runs the chunk from the instruction at `ip` until it returns or fails.
    /// Every read of the code, the pool and the stack is checked: a program
    /// that reaches outside them stops with the cause, the offset and the
    /// line of the instruction that did.
    pub fn run(&mut self) -> (result: InterpreterResult)
        requires
            old(self).wf(),
            old(self).chunk.wf(),
        ensures
            final(self).wf(),
            final(self).chunk == old(self).chunk,
            result == result_of(old(self).chunk@, old(self).machine().run(old(self).chunk@).0),
            final(self).machine() == old(self).machine().run(old(self).chunk@).1,
    {
        loop
            invariant
                self.wf(),
                self.chunk.wf(),
                self.chunk == old(self).chunk,
                self.machine().run(self.chunk@) == old(self).machine().run(old(self).chunk@),
            decreases self.chunk@.code.len() - self.ip,
        {
            let ghost before = self.machine();
            let offset = self.ip;
            if offset >= self.chunk.code.len() {
                return self.failure(RuntimeErrorKind::MissingReturn, offset);
            }
            let instruction = OpCode::from(self.chunk.code[offset]);
            self.ip += 1;
            let outcome = match instruction {
                OpCode::OpConstant => {
                    if self.ip >= self.chunk.code.len() {
                        Err(RuntimeErrorKind::MissingOperand)
                    } else {
                        let index = self.chunk.code[self.ip];
                        self.ip += 1;
                        if index as usize >= self.chunk.constants.len() {
                            Err(RuntimeErrorKind::InvalidConstant(index))
                        } else {
                            let constant = self.chunk.constants[index as usize];
                            self.push(constant)
                        }
                    }
                },
                OpCode::OpAdd => match self.operands() {
                    Ok((a, b)) => self.push(a.plus(b)),
                    Err(kind) => Err(kind),
                },
                OpCode::OpSubtract => match self.operands() {
                    Ok((a, b)) => self.push(a.minus(b)),
                    Err(kind) => Err(kind),
                },
                OpCode::OpMultiply => match self.operands() {
                    Ok((a, b)) => self.push(a.times(b)),
                    Err(kind) => Err(kind),
                },
                OpCode::OpDivide => match self.operands() {
                    Ok((a, b)) => self.push(a.divided_by(b)),
                    Err(kind) => Err(kind),
                },
                OpCode::OpNegate => {
                    if self.stack_top == 0 {
                        Err(RuntimeErrorKind::StackUnderflow)
                    } else {
                        let top = self.stack[self.stack_top - 1];
                        self.stack.set(self.stack_top - 1, top.negated());
                        assert(self.machine().stack =~= before.stack.update(
                            before.stack.len() - 1,
                            before.stack.last().spec_negated(),
                        ));
                        Ok(())
                    }
                },
                OpCode::OpReturn => {
                    return match self.pop() {
                        Ok(value) => InterpreterResult::Success(value),
                        Err(kind) => self.failure(kind, offset),
                    };
                },
                OpCode::Index(byte) => Err(RuntimeErrorKind::UnknownOpcode(byte)),
            };
            if let Err(kind) = outcome {
                return self.failure(kind, offset);
            }
        }
    }

    /// Compiles `source` into `chunk`: one expression, then a return. It
    /// fails exactly when an error was seen, with the reports in the order in
    /// which they were made; the chunk is filled to the end either way.
    pub fn compile(&mut self, source: String, chunk: &mut Chunk) -> (compiled: Result<(), Vec<String>>)
        ensures
            *final(self) == *old(self),
            final(chunk)@ == compile(source@, old(chunk)@).chunk,
            old(chunk).wf() ==> final(chunk).wf(),
            match compiled {
                Ok(_) => !compile(source@, old(chunk)@).parser.had_error,
                Err(diagnostics) => {
                    &&& compile(source@, old(chunk)@).parser.had_error
                    &&& diagnostics.deep_view() == compile(source@, old(chunk)@).parser.diagnostics
                },
            },
    {
        let mut scanner = Scanner::new(source);
        let mut parser = Parser::new();
        parser.advance(&mut scanner);
        parser.expression(&mut scanner, chunk);
        parser.consume(&mut scanner, TokenType::EOF, String::from_str("Expect end of expression."));
        parser.end_compiler(chunk);
        if parser.had_error {
            Err(parser.diagnostics)
        } else {
            Ok(())
        }
    }

    /// Compiles and runs one program. The machine starts each program anew:
    /// the stack is emptied and the run starts at the first instruction of
    /// the new chunk. A source that does not compile is not run, and leaves
    /// the machine with an empty chunk. A source that compiles is an
    /// expression, and its run returns the value of that expression: no
    /// program that the compiler accepts fails while it runs, and it leaves
    /// the stack empty.
    pub fn interpret(&mut self, source: String) -> (result: InterpreterResult)
        requires
            old(self).wf(),
        ensures
            final(self).wf(),
            final(self).chunk.wf(),
            !(result is RuntimeError),
            final(self).stack_top == 0,
            ({
                let pass = compile(source@, ChunkView::empty());
                let fresh = Machine { ip: 0, stack: Seq::empty() };
                if pass.parser.had_error {
                    &&& result matches InterpreterResult::CompileError(diagnostics)
                    &&& diagnostics.deep_view() == pass.parser.diagnostics
                    &&& final(self).chunk@ == ChunkView::empty()
                    &&& final(self).machine() == fresh
                } else {
                    &&& final(self).chunk@ == pass.chunk
                    &&& result == result_of(pass.chunk, fresh.run(pass.chunk).0)
                    &&& final(self).machine() == fresh.run(pass.chunk).1
                    &&& parse(source@) matches Some(expr)
                    &&& result == InterpreterResult::Success(expr.value())
                    &&& final(self).ip == pass.chunk.code.len()
                }
            }),
    {
        self.reset_stack();
        self.ip = 0;
        self.chunk = Chunk::new();
        assert(self.machine().stack =~= Seq::empty());
        proof {
            lemma_compile_meaning(source@);
        }
        let mut chunk = Chunk::new();
        match self.compile(source, &mut chunk) {
            Err(diagnostics) => InterpreterResult::CompileError(diagnostics),
            Ok(_) => {
                self.chunk = chunk;
                self.run()
            },
        }
    }

    /// Lists the chunk that the machine holds, under the title `VM DEBUG`.
    pub fn disassemble_current_instruction(self) -> (listing: Disassembly)
        requires
            self.chunk.wf(),
        ensures
            listing@ == self.chunk.listing("VM DEBUG"@),
    {
        self.chunk.disassemble("VM DEBUG")
    }
}

} // verus!
