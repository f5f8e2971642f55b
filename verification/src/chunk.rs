//! The bytecode container: an instruction stream, a parallel source-line
//! table with one entry per code byte, and an ordered constant pool of at
//! most 256 values, addressed from the code by a one-byte index.

use vstd::prelude::*;

use crate::value::Value;
use crate::value::ValueArray;

verus! {

#[allow(non_camel_case_types)]
#[derive(Clone, Copy, Debug, PartialEq, Eq, Structural)]
pub enum OpCode {
    OP_CONSTANT,
    OP_NIL,
    OP_TRUE,
    OP_FALSE,
    OP_EQUAL,
    OP_GREATER,
    OP_LESS,
    OP_ADD,
    OP_SUBTRACT,
    OP_MULTIPLY,
    OP_DIVIDE,
    OP_NOT,
    OP_NEGATE,
    OP_RETURN,
    UNKNOWN,
}

/// The instruction byte that encodes an opcode; `UNKNOWN` stands for every
/// byte that encodes no instruction.
pub open spec fn byte_of_opcode(op: OpCode) -> u8 {
    match op {
        OpCode::OP_CONSTANT => 0,
        OpCode::OP_NIL => 1,
        OpCode::OP_TRUE => 2,
        OpCode::OP_FALSE => 3,
        OpCode::OP_EQUAL => 4,
        OpCode::OP_GREATER => 5,
        OpCode::OP_LESS => 6,
        OpCode::OP_ADD => 7,
        OpCode::OP_SUBTRACT => 8,
        OpCode::OP_MULTIPLY => 9,
        OpCode::OP_DIVIDE => 10,
        OpCode::OP_NOT => 11,
        OpCode::OP_NEGATE => 12,
        OpCode::OP_RETURN => 13,
        OpCode::UNKNOWN => 14,
    }
}

/// The opcode that an instruction byte decodes to.
pub open spec fn opcode_of_byte(b: u8) -> OpCode {
    if b == 0 {
        OpCode::OP_CONSTANT
    } else if b == 1 {
        OpCode::OP_NIL
    } else if b == 2 {
        OpCode::OP_TRUE
    } else if b == 3 {
        OpCode::OP_FALSE
    } else if b == 4 {
        OpCode::OP_EQUAL
    } else if b == 5 {
        OpCode::OP_GREATER
    } else if b == 6 {
        OpCode::OP_LESS
    } else if b == 7 {
        OpCode::OP_ADD
    } else if b == 8 {
        OpCode::OP_SUBTRACT
    } else if b == 9 {
        OpCode::OP_MULTIPLY
    } else if b == 10 {
        OpCode::OP_DIVIDE
    } else if b == 11 {
        OpCode::OP_NOT
    } else if b == 12 {
        OpCode::OP_NEGATE
    } else if b == 13 {
        OpCode::OP_RETURN
    } else {
        OpCode::UNKNOWN
    }
}

impl OpCode {
    pub fn to_byte(self) -> (r: u8)
        ensures
            r == byte_of_opcode(self),
    {
        match self {
            OpCode::OP_CONSTANT => 0,
            OpCode::OP_NIL => 1,
            OpCode::OP_TRUE => 2,
            OpCode::OP_FALSE => 3,
            OpCode::OP_EQUAL => 4,
            OpCode::OP_GREATER => 5,
            OpCode::OP_LESS => 6,
            OpCode::OP_ADD => 7,
            OpCode::OP_SUBTRACT => 8,
            OpCode::OP_MULTIPLY => 9,
            OpCode::OP_DIVIDE => 10,
            OpCode::OP_NOT => 11,
            OpCode::OP_NEGATE => 12,
            OpCode::OP_RETURN => 13,
            OpCode::UNKNOWN => 14,
        }
    }

    pub fn from_byte(b: u8) -> (r: OpCode)
        ensures
            r == opcode_of_byte(b),
    {
        if b == 0 {
            OpCode::OP_CONSTANT
        } else if b == 1 {
            OpCode::OP_NIL
        } else if b == 2 {
            OpCode::OP_TRUE
        } else if b == 3 {
            OpCode::OP_FALSE
        } else if b == 4 {
            OpCode::OP_EQUAL
        } else if b == 5 {
            OpCode::OP_GREATER
        } else if b == 6 {
            OpCode::OP_LESS
        } else if b == 7 {
            OpCode::OP_ADD
        } else if b == 8 {
            OpCode::OP_SUBTRACT
        } else if b == 9 {
            OpCode::OP_MULTIPLY
        } else if b == 10 {
            OpCode::OP_DIVIDE
        } else if b == 11 {
            OpCode::OP_NOT
        } else if b == 12 {
            OpCode::OP_NEGATE
        } else if b == 13 {
            OpCode::OP_RETURN
        } else {
            OpCode::UNKNOWN
        }
    }
}

/// Every opcode byte decodes back to the opcode it was encoded from.
pub proof fn lemma_opcode_byte_round_trip(op: OpCode)
    requires
        op != OpCode::UNKNOWN,
    ensures
        opcode_of_byte(byte_of_opcode(op)) == op,
{
}

pub struct Chunk {
    pub code: Vec<u8>,
    pub lines: Vec<usize>,
    pub constants: ValueArray,
}

impl Chunk {
    /// The container's invariant: one line-table entry per code byte, and a
    /// constant pool that a one-byte operand can always address.
    pub open spec fn wf(self) -> bool {
        &&& self.code@.len() == self.lines@.len()
        &&& self.constants.values@.len() <= 256
    }

    pub fn new() -> (c: Chunk)
        ensures
            c.code@ == Seq::<u8>::empty(),
            c.lines@ == Seq::<usize>::empty(),
            c.constants.values@ == Seq::<Value>::empty(),
            c.wf(),
    {
        Chunk { code: Vec::new(), lines: Vec::new(), constants: ValueArray::new() }
    }

    /// Appends one byte together with the source line it came from.
    pub fn write(&mut self, byte: u8, line: usize)
        ensures
            final(self).code@ == old(self).code@.push(byte),
            final(self).lines@ == old(self).lines@.push(line),
            final(self).constants == old(self).constants,
    {
        self.code.push(byte);
        self.lines.push(line);
    }

    /// Appends a value to the constant pool and returns its index. The pool
    /// must not be full: a full pool is a compile-level failure that the
    /// compiler reports before ever calling this.
    pub fn add_constant(&mut self, value: Value) -> (r: u8)
        requires
            old(self).constants.values@.len() < 256,
        ensures
            final(self).constants.values@ == old(self).constants.values@.push(value),
            r == old(self).constants.values@.len(),
            final(self).code == old(self).code,
            final(self).lines == old(self).lines,
    {
        let index = self.constants.values.len();
        self.constants.write(value);
        index as u8
    }
}

} // verus!
