use crate::chunk::{Chunk, ChunkView};
use crate::opcode::OpCode;
use crate::value::Value;
use vstd::prelude::*;
use vstd::string::StringExecFns;

verus! {

/// One instruction of a listing.
#[derive(Debug, Clone, Copy, PartialEq, Eq, Structural)]
pub struct InstructionLine {
    /// Where the instruction starts.
    pub offset: usize,
    /// Its source line; `None` where that is the line of the byte before it.
    pub line: Option<i32>,
    /// What its first byte says.
    pub opcode: OpCode,
    /// The operand of a constant load, where the code holds one.
    pub operand: Option<u8>,
    /// The constant that the operand names, where it names one.
    pub constant: Option<Value>,
}

/// The mathematical content of a `Disassembly`.
pub struct DisassemblyView {
    pub title: Seq<char>,
    pub lines: Seq<InstructionLine>,
}

/// A listing of a chunk: a title and one entry for each instruction.
#[derive(Debug, Clone)]
pub struct Disassembly {
    pub title: String,
    pub lines: Vec<InstructionLine>,
}

impl View for Disassembly {
    type V = DisassemblyView;

    open spec fn view(&self) -> DisassemblyView {
        DisassemblyView { title: self.title@, lines: self.lines@ }
    }
}

/// The line shown for the byte at `offset`: none where the byte before it
/// has the same line.
pub open spec fn shown_line(chunk: ChunkView, offset: int) -> Option<i32> {
    if offset > 0 && chunk.line_at(offset) == chunk.line_at(offset - 1) {
        None
    } else {
        Some(chunk.line_at(offset))
    }
}

/// The entry for the instruction at `offset`, and the offset behind it. A
/// constant load takes its operand with it where the code holds one; every
/// other byte stands alone.
pub open spec fn listed(chunk: ChunkView, offset: int) -> (InstructionLine, int) {
    let opcode = OpCode::of_byte(chunk.code[offset]);
    let line = shown_line(chunk, offset);
    if opcode == OpCode::OpConstant && offset + 1 < chunk.code.len() {
        let operand = chunk.code[offset + 1];
        let constant = if operand < chunk.constants.len() {
            Some(chunk.constants[operand as int])
        } else {
            None
        };
        (InstructionLine { offset: offset as usize, line, opcode, operand: Some(operand), constant }, offset + 2)
    } else {
        (InstructionLine { offset: offset as usize, line, opcode, operand: None, constant: None }, offset + 1)
    }
}

/// The entries for the instructions from `offset` to the end of the code.
pub open spec fn listing(chunk: ChunkView, offset: int) -> Seq<InstructionLine>
    decreases chunk.code.len() - offset,
{
    if 0 <= offset < chunk.code.len() {
        seq![listed(chunk, offset).0] + listing(chunk, listed(chunk, offset).1)
    } else {
        Seq::empty()
    }
}

/// The title of a listing.
pub open spec fn title(name: Seq<char>) -> Seq<char> {
    "== "@ + name + " =="@
}

/// What can be listed for a reader.
pub trait Disassemble {
    /// Whether the value is fit to be listed.
    spec fn listable(&self) -> bool;

    /// The listing under the title `name`.
    spec fn listing(&self, name: Seq<char>) -> DisassemblyView;

    fn disassemble(&self, name: &str) -> (listing: Disassembly)
        requires
            self.listable(),
        ensures
            listing@ == self.listing(name@),
    ;
}

impl Disassemble for Chunk {
    open spec fn listable(&self) -> bool {
        self.wf()
    }

    open spec fn listing(&self, name: Seq<char>) -> DisassemblyView {
        DisassemblyView { title: title(name), lines: listing(self@, 0) }
    }

    fn disassemble(&self, name: &str) -> (listing: Disassembly) {
        let mut title = String::from_str("== ");
        title.append(name);
        title.append(" ==");
        let mut lines: Vec<InstructionLine> = Vec::new();
        let mut offset: usize = 0;
        while offset < self.count()
            invariant
                self.wf(),
                offset <= self@.code.len(),
                lines@ + listing(self@, offset as int) == listing(self@, 0),
            decreases self@.code.len() - offset,
        {
            let (line, next) = disassemble_instruction(self, offset);
            let ghost before = lines@;
            lines.push(line);
            assert(lines@ + listing(self@, next as int) =~= before + listing(self@, offset as int));
            offset = next;
        }
        assert(lines@ =~= lines@ + listing(self@, offset as int));
        Disassembly { title, lines }
    }
}

/// Lists the instruction at `offset` and gives the offset of the next one.
pub fn disassemble_instruction(chunk: &Chunk, offset: usize) -> (entry: (InstructionLine, usize))
    requires
        chunk.wf(),
        offset < chunk@.code.len(),
    ensures
        entry.0 == listed(chunk@, offset as int).0,
        entry.1 == listed(chunk@, offset as int).1,
        offset < entry.1 <= chunk@.code.len(),
{
    let count = chunk.code.len();
    let line = chunk.get_line(offset);
    let shown = if offset > 0 && line == chunk.get_line(offset - 1) {
        None
    } else {
        Some(line)
    };
    let instruction = chunk.code[offset];
    let opcode = OpCode::from(instruction);
    match opcode {
        OpCode::OpConstant => {
            if offset + 1 < count {
                let operand = chunk.code[offset + 1];
                let constant = if (operand as usize) < chunk.constants.len() {
                    Some(chunk.constants[operand as usize])
                } else {
                    None
                };
                (InstructionLine { offset, line: shown, opcode, operand: Some(operand), constant }, offset + 2)
            } else {
                simple_instruction(instruction, offset, shown)
            }
        },
        _ => simple_instruction(instruction, offset, shown),
    }
}

/// Lists an instruction that is one byte.
fn simple_instruction(instruction: u8, offset: usize, line: Option<i32>) -> (entry: (InstructionLine, usize))
    requires
        offset < usize::MAX,
    ensures
        entry.0 == (InstructionLine {
            offset,
            line,
            opcode: OpCode::of_byte(instruction),
            operand: None,
            constant: None,
        }),
        entry.1 == offset + 1,
{
    (InstructionLine { offset, line, opcode: OpCode::from(instruction), operand: None, constant: None }, offset + 1)
}

} // verus!
