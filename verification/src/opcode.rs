use vstd::prelude::*;
use vstd::std_specs::convert::FromSpecImpl;

verus! {

/// One byte of an instruction stream: either a named instruction, or a raw
/// operand byte that follows one.
#[derive(Debug, PartialEq, Eq, Clone, Copy, Structural)]
pub enum OpCode {
    /// Pushes the constant whose pool index is the next byte.
    OpConstant,
    OpAdd,
    OpSubtract,
    OpMultiply,
    OpDivide,
    OpNegate,
    /// Pops the result, reports it and halts.
    OpReturn,
    /// A raw operand byte.
    Index(u8),
}

impl OpCode {
    /// Whether this is one of the seven named instructions.
    pub open spec fn is_instruction(self) -> bool {
        !(self is Index)
    }

    /// Whether decoding the encoded byte gives this value back. It fails only
    /// for an operand byte whose number is that of a named instruction.
    pub open spec fn is_canonical(self) -> bool {
        match self {
            OpCode::Index(byte) => byte == 0 || byte > 7,
            _ => true,
        }
    }

    /// The byte that stands for this value in an instruction stream.
    pub open spec fn byte(self) -> u8 {
        match self {
            OpCode::OpConstant => 1,
            OpCode::OpAdd => 2,
            OpCode::OpSubtract => 3,
            OpCode::OpMultiply => 4,
            OpCode::OpDivide => 5,
            OpCode::OpNegate => 6,
            OpCode::OpReturn => 7,
            OpCode::Index(index) => index,
        }
    }

    /// What a byte read as an instruction means: the numbers 1 to 7 name the
    /// instructions, every other byte is no instruction.
    pub open spec fn of_byte(byte: u8) -> OpCode {
        if byte == 1 {
            OpCode::OpConstant
        } else if byte == 2 {
            OpCode::OpAdd
        } else if byte == 3 {
            OpCode::OpSubtract
        } else if byte == 4 {
            OpCode::OpMultiply
        } else if byte == 5 {
            OpCode::OpDivide
        } else if byte == 6 {
            OpCode::OpNegate
        } else if byte == 7 {
            OpCode::OpReturn
        } else {
            OpCode::Index(byte)
        }
    }
}

impl From<OpCode> for u8 {
    fn from(opcode: OpCode) -> (byte: u8) {
        match opcode {
            OpCode::OpConstant => 1,
            OpCode::OpAdd => 2,
            OpCode::OpSubtract => 3,
            OpCode::OpMultiply => 4,
            OpCode::OpDivide => 5,
            OpCode::OpNegate => 6,
            OpCode::OpReturn => 7,
            OpCode::Index(index) => index,
        }
    }
}

impl FromSpecImpl<OpCode> for u8 {
    open spec fn obeys_from_spec() -> bool {
        true
    }

    open spec fn from_spec(opcode: OpCode) -> u8 {
        opcode.byte()
    }
}

impl From<u8> for OpCode {
    fn from(byte: u8) -> (opcode: OpCode) {
        match byte {
            1 => OpCode::OpConstant,
            2 => OpCode::OpAdd,
            3 => OpCode::OpSubtract,
            4 => OpCode::OpMultiply,
            5 => OpCode::OpDivide,
            6 => OpCode::OpNegate,
            7 => OpCode::OpReturn,
            _ => OpCode::Index(byte),
        }
    }
}

impl FromSpecImpl<u8> for OpCode {
    open spec fn obeys_from_spec() -> bool {
        true
    }

    open spec fn from_spec(byte: u8) -> OpCode {
        OpCode::of_byte(byte)
    }
}

/// Encoding loses nothing: decoding a byte and encoding the result gives the
/// byte back, and every decoded value is canonical.
pub proof fn lemma_decode_then_encode(byte: u8)
    ensures
        OpCode::of_byte(byte).byte() == byte,
        OpCode::of_byte(byte).is_canonical(),
        OpCode::of_byte(byte).is_instruction() <==> 1 <= byte <= 7,
{
}

/// Decoding the encoding of a value gives it back exactly when the value is
/// canonical.
pub proof fn lemma_encode_then_decode(opcode: OpCode)
    ensures
        OpCode::of_byte(opcode.byte()) == opcode <==> opcode.is_canonical(),
        opcode.is_instruction() ==> 1 <= opcode.byte() <= 7,
{
}

} // verus!
